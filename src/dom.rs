use vstd::prelude::*;

verus! {

/// What an attribute mapping stands for: each name bound to one value.
pub type AttrModel = Map<Seq<char>, Seq<char>>;

/// The attributes of one element, keyed by name.
///
/// The entries are kept in a vector whose names are pairwise distinct, so
/// that each name is bound to exactly one value.
pub struct AttrMap {
    entries: Vec<(String, String)>,
}

impl AttrMap {
    /// No two entries share a name.
    pub closed spec fn wf(&self) -> bool {
        forall|i: int, j: int|
            0 <= i < self.entries@.len() && 0 <= j < self.entries@.len() && i != j
                ==> self.entries@[i].0@ != self.entries@[j].0@
    }

    spec fn has_key_at(&self, k: Seq<char>, i: int) -> bool {
        0 <= i < self.entries@.len() && self.entries@[i].0@ == k
    }

    pub closed spec fn view(&self) -> AttrModel {
        Map::new(
            |k: Seq<char>| exists|i: int| self.has_key_at(k, i),
            |k: Seq<char>| self.entries@[choose|i: int| self.has_key_at(k, i)].1@,
        )
    }

    proof fn lemma_entry(&self, i: int)
        requires
            self.wf(),
            0 <= i < self.entries@.len(),
        ensures
            self@.contains_key(self.entries@[i].0@),
            self@[self.entries@[i].0@] == self.entries@[i].1@,
    {
        let k = self.entries@[i].0@;
        assert(self.has_key_at(k, i));
        let j = choose|j: int| self.has_key_at(k, j);
        assert(i == j);
    }

    /// An empty mapping.
    pub fn new() -> (r: AttrMap)
        ensures
            r.wf(),
            r@ == Map::<Seq<char>, Seq<char>>::empty(),
    {
        let r = AttrMap { entries: Vec::new() };
        assert(r@ =~= Map::<Seq<char>, Seq<char>>::empty());
        r
    }

    fn find(&self, key: &str) -> (r: Option<usize>)
        requires
            self.wf(),
        ensures
            match r {
                Some(i) => self.has_key_at(key@, i as int),
                None => !self@.contains_key(key@),
            },
    {
        let k = key.to_owned();
        let mut i: usize = 0;
        while i < self.entries.len()
            invariant
                k@ == key@,
                i <= self.entries@.len(),
                forall|j: int| 0 <= j < i ==> self.entries@[j].0@ != key@,
            decreases self.entries.len() - i,
        {
            if self.entries[i].0 == k {
                return Some(i);
            }
            i = i + 1;
        }
        None
    }

    /// Binds `key` to `value`; an earlier value of `key` is replaced.
    pub fn insert(&mut self, key: String, value: String)
        requires
            old(self).wf(),
        ensures
            final(self).wf(),
            final(self)@ == old(self)@.insert(key@, value@),
    {
        let ghost before = *self;
        match self.find(key.as_str()) {
            Some(i) => {
                self.entries.set(i, (key, value));
                assert forall|k: Seq<char>| #[trigger] self@.contains_key(k) == before@.insert(key@, value@).contains_key(k)
                    && (self@.contains_key(k) ==> self@[k] == before@.insert(key@, value@)[k]) by {
                    if exists|j: int| self.has_key_at(k, j) {
                        let j = choose|j: int| self.has_key_at(k, j);
                        self.lemma_entry(j);
                        if j != i {
                            before.lemma_entry(j);
                        }
                    }
                    if exists|j: int| before.has_key_at(k, j) {
                        let j = choose|j: int| before.has_key_at(k, j);
                        before.lemma_entry(j);
                        assert(self.has_key_at(k, j));
                    }
                }
            },
            None => {
                self.entries.push((key, value));
                assert(forall|j: int| 0 <= j < before.entries@.len() ==> !before.has_key_at(key@, j));
                assert(self.entries@ == before.entries@.push((key, value)));
                assert forall|a: int, b: int|
                    0 <= a < self.entries@.len() && 0 <= b < self.entries@.len() && a != b
                        implies self.entries@[a].0@ != self.entries@[b].0@ by {
                    if a < before.entries@.len() {
                        assert(!before.has_key_at(key@, a));
                    }
                    if b < before.entries@.len() {
                        assert(!before.has_key_at(key@, b));
                    }
                }
                assert forall|k: Seq<char>| #[trigger] self@.contains_key(k) == before@.insert(key@, value@).contains_key(k)
                    && (self@.contains_key(k) ==> self@[k] == before@.insert(key@, value@)[k]) by {
                    if exists|j: int| self.has_key_at(k, j) {
                        let j = choose|j: int| self.has_key_at(k, j);
                        self.lemma_entry(j);
                        if j < before.entries@.len() {
                            before.lemma_entry(j);
                        }
                    }
                    if k == key@ {
                        assert(self.has_key_at(k, before.entries@.len() as int));
                    }
                    if exists|j: int| before.has_key_at(k, j) {
                        let j = choose|j: int| before.has_key_at(k, j);
                        before.lemma_entry(j);
                        assert(self.has_key_at(k, j));
                    }
                }
            },
        }
        assert(self@ =~= before@.insert(key@, value@));
    }

    /// The number of names bound.
    pub fn len(&self) -> (r: usize)
        requires
            self.wf(),
        ensures
            r == self@.len(),
    {
        proof {
            let keys = self.entries@.map_values(|e: (String, String)| e.0@);
            assert(self@.dom() =~= keys.to_set()) by {
                assert forall|k: Seq<char>| self@.dom().contains(k) implies keys.to_set().contains(k) by {
                    let j = choose|j: int| self.has_key_at(k, j);
                    assert(keys[j] == k);
                }
                assert forall|k: Seq<char>| keys.to_set().contains(k) implies self@.dom().contains(k) by {
                    let j = choose|j: int| 0 <= j < keys.len() && keys[j] == k;
                    assert(self.has_key_at(k, j));
                }
            }
            assert(keys.no_duplicates());
            keys.unique_seq_to_set();
        }
        self.entries.len()
    }

    /// Whether `key` is bound.
    pub fn contains_key(&self, key: &str) -> (r: bool)
        requires
            self.wf(),
        ensures
            r == self@.contains_key(key@),
    {
        match self.find(key) {
            Some(i) => {
                proof {
                    self.lemma_entry(i as int);
                }
                true
            },
            None => false,
        }
    }

    /// The value bound to `key`, if any.
    pub fn get(&self, key: &str) -> (r: Option<&String>)
        requires
            self.wf(),
        ensures
            match r {
                Some(v) => self@.contains_key(key@) && v@ == self@[key@],
                None => !self@.contains_key(key@),
            },
    {
        match self.find(key) {
            Some(i) => {
                proof {
                    self.lemma_entry(i as int);
                }
                Some(&self.entries[i].1)
            },
            None => None,
        }
    }

    /// The stored name and the value bound to `key`, if any.
    pub fn get_key_value(&self, key: &str) -> (r: Option<(&String, &String)>)
        requires
            self.wf(),
        ensures
            match r {
                Some((k, v)) => self@.contains_key(key@) && k@ == key@ && v@ == self@[key@],
                None => !self@.contains_key(key@),
            },
    {
        match self.find(key) {
            Some(i) => {
                proof {
                    self.lemma_entry(i as int);
                }
                Some((&self.entries[i].0, &self.entries[i].1))
            },
            None => None,
        }
    }
}

/// What a node holds besides its children.
pub enum Kind {
    Text(Seq<char>),
    Element { tag: Seq<char>, attrs: AttrModel },
    Comment(Seq<char>),
}

/// The mathematical value of a node: its kind and its children in order.
pub struct Tree {
    pub children: Seq<Tree>,
    pub kind: Kind,
}

/// A vertex of a document tree. Each node owns its children.
pub struct Node {
    pub children: Vec<Node>,
    pub node_type: NodeType,
}

/// The three kinds of node.
pub enum NodeType {
    Text(String),
    Element(ElementData),
    Comment(String),
}

/// The name and attributes of an element.
pub struct ElementData {
    pub tag_name: String,
    pub attributes: AttrMap,
}

impl NodeType {
    pub open spec fn view(&self) -> Kind {
        match self {
            NodeType::Text(s) => Kind::Text(s@),
            NodeType::Element(d) => Kind::Element { tag: d.tag_name@, attrs: d.attributes@ },
            NodeType::Comment(s) => Kind::Comment(s@),
        }
    }
}

impl Node {
    pub open spec fn view(&self) -> Tree
        decreases self,
    {
        Tree {
            children: Seq::new(
                self.children@.len(),
                |i: int|
                    if 0 <= i < self.children@.len() {
                        self.children@[i].view()
                    } else {
                        arbitrary()
                    },
            ),
            kind: self.node_type@,
        }
    }

    /// Every attribute mapping in the subtree keeps its names distinct.
    pub open spec fn wf(&self) -> bool
        decreases self,
    {
        &&& match self.node_type {
            NodeType::Element(d) => d.attributes.wf(),
            _ => true,
        }
        &&& forall|i: int| 0 <= i < self.children@.len() ==> (#[trigger] self.children@[i]).wf()
    }
}

/// The trees of a sequence of nodes, in order.
pub open spec fn trees(nodes: Seq<Node>) -> Seq<Tree> {
    nodes.map_values(|n: Node| n@)
}

/// A text node holding `data`, with no children.
pub fn text(data: String) -> (r: Node)
    ensures
        r@ == (Tree { children: Seq::empty(), kind: Kind::Text(data@) }),
        r.wf(),
{
    let r = Node { children: Vec::new(), node_type: NodeType::Text(data) };
    assert(r@.children =~= Seq::<Tree>::empty());
    r
}

/// An element node named `name` with attributes `attrs` and children `cd`.
pub fn elem(name: String, attrs: AttrMap, cd: Vec<Node>) -> (r: Node)
    requires
        attrs.wf(),
        forall|i: int| 0 <= i < cd@.len() ==> #[trigger] cd@[i].wf(),
    ensures
        r@ == (Tree { children: trees(cd@), kind: Kind::Element { tag: name@, attrs: attrs@ } }),
        r.wf(),
{
    let ghost cds = cd@;
    let r = Node {
        children: cd,
        node_type: NodeType::Element(ElementData { tag_name: name, attributes: attrs }),
    };
    assert(r@.children =~= trees(r.children@));
    assert(r.children@ == cds);
    assert(forall|i: int| 0 <= i < r.children@.len() ==> (#[trigger] r.children@[i]).wf());
    r
}

/// A comment node holding `data`, with no children.
pub fn comment(data: String) -> (r: Node)
    ensures
        r@ == (Tree { children: Seq::empty(), kind: Kind::Comment(data@) }),
        r.wf(),
{
    let r = Node { children: Vec::new(), node_type: NodeType::Comment(data) };
    assert(r@.children =~= Seq::<Tree>::empty());
    r
}

} // verus!
