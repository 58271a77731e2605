use vstd::prelude::*;
use crate::dom::{AttrModel, Kind, Tree};
use crate::html::{
    expect, is_name_char, is_space, run_end, run_len, spec_attr, spec_attr_value, spec_attributes,
    spec_element, spec_node, spec_nodes, spec_parse, spec_tag_name, spec_text, starts_with_at,
    CharClass, Fault,
};

verus! {

/// A run of `class` ends within the input, covers only characters of the
/// class, and stops before one that is not.
pub proof fn lemma_run(s: Seq<char>, p: int, class: CharClass)
    requires
        0 <= p <= s.len(),
    ensures
        p <= run_end(s, p, class) <= s.len(),
        forall|i: int| p <= i < run_end(s, p, class) ==> class.holds(#[trigger] s[i]),
        run_end(s, p, class) < s.len() ==> !class.holds(s[run_end(s, p, class)]),
    decreases s.len() - p,
{
    if p < s.len() && class.holds(s[p]) {
        lemma_run(s, p + 1, class);
    }
}

/// A run over `n` characters of `class` followed by the end of the input or
/// by another character has length `n`.
pub proof fn lemma_run_over(s: Seq<char>, p: int, n: int, class: CharClass)
    requires
        0 <= p,
        0 <= n,
        p + n <= s.len(),
        forall|i: int| p <= i < p + n ==> class.holds(#[trigger] s[i]),
        p + n == s.len() || !class.holds(s[p + n]),
    ensures
        run_len(s, p, class) == n,
    decreases n,
{
    if n > 0 {
        lemma_run_over(s, p + 1, n - 1, class);
    }
}

/// Every text node in `t` is a non-empty run of `s` itself, taken as it
/// stands: it starts with a character that is not whitespace and holds no
/// `<`.
pub open spec fn texts_verbatim(s: Seq<char>, t: Tree) -> bool
    decreases t,
{
    &&& match t.kind {
        Kind::Text(c) => {
            &&& c.len() > 0
            &&& !is_space(c[0])
            &&& forall|i: int| 0 <= i < c.len() ==> c[i] != '<'
            &&& exists|i: int| 0 <= i && i + c.len() <= s.len() && #[trigger] s.subrange(i, i + c.len()) == c
        },
        _ => true,
    }
    &&& forall|j: int| 0 <= j < t.children.len() ==> texts_verbatim(s, #[trigger] t.children[j])
}

proof fn lemma_nodes_texts(s: Seq<char>, p: int)
    requires
        0 <= p <= s.len(),
        spec_nodes(s, p) is Ok,
    ensures
        forall|j: int|
            0 <= j < spec_nodes(s, p)->Ok_0.0.len() ==> texts_verbatim(
                s,
                #[trigger] spec_nodes(s, p)->Ok_0.0[j],
            ),
    decreases s.len() - p, 2nat,
{
    lemma_run(s, p, CharClass::Whitespace);
    let w = run_end(s, p, CharClass::Whitespace);
    if w >= s.len() || starts_with_at(s, w, seq!['<', '/']) {
    } else {
        let (n, q) = spec_node(s, w)->Ok_0;
        lemma_node_texts(s, w);
        lemma_nodes_texts(s, q);
        let rest = spec_nodes(s, q)->Ok_0.0;
        assert forall|j: int| 0 <= j < spec_nodes(s, p)->Ok_0.0.len() implies texts_verbatim(
            s,
            #[trigger] spec_nodes(s, p)->Ok_0.0[j],
        ) by {
            if j > 0 {
                assert(spec_nodes(s, p)->Ok_0.0[j] == rest[j - 1]);
            }
        }
    }
}

proof fn lemma_node_texts(s: Seq<char>, p: int)
    requires
        0 <= p < s.len(),
        !is_space(s[p]),
        spec_node(s, p) is Ok,
    ensures
        texts_verbatim(s, spec_node(s, p)->Ok_0.0),
        spec_node(s, p)->Ok_0.1 <= s.len(),
    decreases s.len() - p, 1nat,
{
    if s[p] == '<' && s[p + 1] == '!' {
    } else if s[p] == '<' {
        lemma_element_texts(s, p);
    } else {
        lemma_run(s, p, CharClass::Not('<'));
        let (t, e) = spec_text(s, p);
        let c = s.subrange(p, e);
        assert(s.subrange(p, p + c.len()) == c);
        assert(texts_verbatim(s, t));
    }
}

proof fn lemma_element_texts(s: Seq<char>, p: int)
    requires
        0 <= p < s.len(),
        spec_element(s, p) is Ok,
    ensures
        texts_verbatim(s, spec_element(s, p)->Ok_0.0),
    decreases s.len() - p, 0nat,
{
    let p1 = p + 1;
    let (tag, p2) = spec_tag_name(s, p1);
    let (attrs, p3) = spec_attributes(s, p2, Map::empty())->Ok_0;
    let p4 = p3 + 1;
    assert(expect(s, p3, '>') == Ok::<int, Fault>(p4));
    lemma_nodes_texts(s, p4);
}

/// Whitespace before a node is never kept as a text node, and what a text
/// node of a parsed document holds is a stretch of the document copied
/// character for character.
pub proof fn lemma_parse_texts_verbatim(s: Seq<char>)
    requires
        spec_parse(s) is Ok,
    ensures
        texts_verbatim(s, spec_parse(s)->Ok_0),
{
    lemma_nodes_texts(s, 0);
}

/// The attributes of a start tag end at or after where they begin, on a
/// character of the input; so a start tag always takes the input forward,
/// and the guard in `spec_element` never decides.
pub proof fn lemma_attributes_progress(s: Seq<char>, p: int, acc: AttrModel)
    requires
        0 <= p <= s.len(),
        spec_attributes(s, p, acc) is Ok,
    ensures
        p <= spec_attributes(s, p, acc)->Ok_0.1 < s.len(),
    decreases s.len() - p,
{
    lemma_run(s, p, CharClass::Whitespace);
    let w = run_end(s, p, CharClass::Whitespace);
    if s[w] != '>' {
        let (name, value, q) = spec_attr(s, w)->Ok_0;
        lemma_attributes_progress(s, q, acc.insert(name, value));
    }
}

/// The sibling nodes from `p` on end at or after `p`, within the input.
pub proof fn lemma_nodes_progress(s: Seq<char>, p: int)
    requires
        0 <= p <= s.len(),
        spec_nodes(s, p) is Ok,
    ensures
        p <= spec_nodes(s, p)->Ok_0.1 <= s.len(),
    decreases s.len() - p, 2nat,
{
    lemma_run(s, p, CharClass::Whitespace);
    let w = run_end(s, p, CharClass::Whitespace);
    if w >= s.len() || starts_with_at(s, w, seq!['<', '/']) {
    } else {
        lemma_node_progress(s, w);
        lemma_nodes_progress(s, spec_node(s, w)->Ok_0.1);
    }
}

/// A node that parses takes at least one character and ends within the
/// input: the guard in `spec_nodes` never decides.
pub proof fn lemma_node_progress(s: Seq<char>, p: int)
    requires
        0 <= p <= s.len(),
        spec_node(s, p) is Ok,
    ensures
        p < spec_node(s, p)->Ok_0.1 <= s.len(),
    decreases s.len() - p, 1nat,
{
    if s[p] == '<' && s[p + 1] == '!' {
    } else if s[p] == '<' {
        let p1 = p + 1;
        let (tag, p2) = spec_tag_name(s, p1);
        let (attrs, p3) = spec_attributes(s, p2, Map::empty())->Ok_0;
        let p4 = p3 + 1;
        assert(expect(s, p3, '>') == Ok::<int, Fault>(p4));
        lemma_nodes_progress(s, p4);
    } else {
        lemma_run(s, p, CharClass::Not('<'));
    }
}

/// A document whose top level holds exactly one node has that node as its
/// root; any other number of top-level nodes is gathered, in document
/// order, under an `html` element without attributes.
pub proof fn lemma_root_of_top_level(s: Seq<char>)
    requires
        spec_nodes(s, 0) is Ok,
    ensures
        ({
            let nodes = spec_nodes(s, 0)->Ok_0.0;
            if nodes.len() == 1 {
                spec_parse(s) == Ok::<Tree, Fault>(nodes[0])
            } else {
                spec_parse(s) == Ok::<Tree, Fault>(
                    Tree {
                        children: nodes,
                        kind: Kind::Element { tag: seq!['h', 't', 'm', 'l'], attrs: Map::empty() },
                    },
                )
            }
        }),
{
}

/// A name: ASCII letters and digits only.
pub open spec fn is_name(n: Seq<char>) -> bool {
    forall|i: int| 0 <= i < n.len() ==> is_name_char(#[trigger] n[i])
}

/// A value: any characters but the double quote.
pub open spec fn is_plain_value(v: Seq<char>) -> bool {
    forall|i: int| 0 <= i < v.len() ==> #[trigger] v[i] != '"'
}

proof fn lemma_attr_at(s: Seq<char>, p: int, k: Seq<char>, v: Seq<char>)
    requires
        is_name(k),
        is_plain_value(v),
        0 <= p,
        p + k.len() + v.len() + 3 <= s.len(),
        s.subrange(p, p + k.len()) == k,
        s[p + k.len()] == '=',
        s[p + k.len() + 1] == '"',
        s.subrange(p + k.len() + 2, p + k.len() + 2 + v.len()) == v,
        s[p + k.len() + 2 + v.len()] == '"',
    ensures
        spec_attr(s, p) == Ok::<(Seq<char>, Seq<char>, int), Fault>((k, v, p + k.len() + v.len() + 3)),
{
    let kn = k.len() as int;
    let vn = v.len() as int;
    assert forall|i: int| p <= i < p + kn implies CharClass::TagName.holds(#[trigger] s[i]) by {
        assert(s[i] == s.subrange(p, p + kn)[i - p]);
    }
    lemma_run_over(s, p, kn, CharClass::TagName);
    assert(spec_tag_name(s, p) == (k, p + kn));
    assert(expect(s, p + kn, '=') == Ok::<int, Fault>(p + kn + 1));
    assert forall|i: int| p + kn + 2 <= i < p + kn + 2 + vn implies CharClass::Not('"').holds(
        #[trigger] s[i],
    ) by {
        assert(s[i] == s.subrange(p + kn + 2, p + kn + 2 + vn)[i - p - kn - 2]);
    }
    lemma_run_over(s, p + kn + 2, vn, CharClass::Not('"'));
    assert(spec_attr_value(s, p + kn + 1) == Ok::<(Seq<char>, int), Fault>((v, p + kn + vn + 3)));
}

/// An element opened as `a` and closed as another name `b`, as in
/// `<a></b>`, makes the whole document fail with a mismatched closing tag at
/// the closing name, and no tree.
pub proof fn lemma_mismatched_tags(a: Seq<char>, b: Seq<char>)
    requires
        is_name(a),
        is_name(b),
        a != b,
    ensures
        spec_parse(seq!['<'] + a + seq!['>', '<', '/'] + b + seq!['>']) == Err::<Tree, Fault>(
            Fault::Mismatched { opened: a, closed: b, position: a.len() + 4int },
        ),
{
    let s = seq!['<'] + a + seq!['>', '<', '/'] + b + seq!['>'];
    let n = a.len() as int;
    let m = b.len() as int;
    assert(s.len() == n + m + 5);
    assert(s[0] == '<');
    assert(s.subrange(1, n + 1) =~= a);
    assert(s[n + 1] == '>');
    assert(s[n + 2] == '<');
    assert(s[n + 3] == '/');
    assert(s.subrange(n + 4, n + m + 4) =~= b);
    assert(s[n + m + 4] == '>');
    lemma_mismatch_in(s, a, b, n, m);
}

proof fn lemma_mismatch_in(s: Seq<char>, a: Seq<char>, b: Seq<char>, n: int, m: int)
    requires
        is_name(a),
        is_name(b),
        a != b,
        n == a.len(),
        m == b.len(),
        s.len() == n + m + 5,
        s[0] == '<',
        s.subrange(1, n + 1) == a,
        s[n + 1] == '>',
        s[n + 2] == '<',
        s[n + 3] == '/',
        s.subrange(n + 4, n + m + 4) == b,
        s[n + m + 4] == '>',
    ensures
        spec_parse(s) == Err::<Tree, Fault>(Fault::Mismatched { opened: a, closed: b, position: n + 4 }),
{
    let bad = Fault::Mismatched { opened: a, closed: b, position: n + 4 };
    // The top level starts with the element at 0.
    assert(run_len(s, 0, CharClass::Whitespace) == 0);
    if n > 0 {
        assert(s[1] == s.subrange(1, n + 1)[0]);
    }
    assert(s[1] != '/' && s[1] != '!');
    assert(!starts_with_at(s, 0, seq!['<', '/'])) by {
        assert(s.subrange(0, 2)[1] != '/');
    }
    // Its start tag.
    assert forall|i: int| 1 <= i < 1 + n implies CharClass::TagName.holds(#[trigger] s[i]) by {
        assert(s[i] == a[i - 1]);
    }
    lemma_run_over(s, 1, n, CharClass::TagName);
    assert(spec_tag_name(s, 1) == (a, n + 1));
    assert(run_len(s, n + 1, CharClass::Whitespace) == 0);
    assert(spec_attributes(s, n + 1, Map::empty()) == Ok::<(Map<Seq<char>, Seq<char>>, int), Fault>(
        (Map::empty(), n + 1),
    ));
    assert(expect(s, n + 1, '>') == Ok::<int, Fault>(n + 2));
    // No children: `</` follows at once.
    assert(run_len(s, n + 2, CharClass::Whitespace) == 0);
    assert(starts_with_at(s, n + 2, seq!['<', '/'])) by {
        assert(s.subrange(n + 2, n + 4) =~= seq!['<', '/']);
    }
    assert(spec_nodes(s, n + 2) == Ok::<(Seq<Tree>, int), Fault>((Seq::empty(), n + 2)));
    assert(expect(s, n + 2, '<') == Ok::<int, Fault>(n + 3));
    assert(expect(s, n + 3, '/') == Ok::<int, Fault>(n + 4));
    // Its end tag names `b`.
    assert forall|i: int| n + 4 <= i < n + 4 + m implies CharClass::TagName.holds(#[trigger] s[i]) by {
        assert(s[i] == b[i - n - 4]);
    }
    lemma_run_over(s, n + 4, m, CharClass::TagName);
    assert(spec_tag_name(s, n + 4) == (b, n + m + 4));
    assert(spec_element(s, 0) == Err::<(Tree, int), Fault>(bad));
    assert(spec_node(s, 0) == Err::<(Tree, int), Fault>(bad));
    assert(spec_nodes(s, 0) == Err::<(Seq<Tree>, int), Fault>(bad));
}

/// Of two attributes with the same name, as in `<a x="1" x="2"></a>`, the
/// later one gives the value: the element's mapping binds the name to it
/// alone.
pub proof fn lemma_later_attribute_wins(t: Seq<char>, k: Seq<char>, v1: Seq<char>, v2: Seq<char>)
    requires
        is_name(t),
        is_name(k),
        is_plain_value(v1),
        is_plain_value(v2),
    ensures
        spec_parse(
            seq!['<'] + t + seq![' '] + k + seq!['=', '"'] + v1 + seq!['"', ' '] + k + seq!['=', '"']
                + v2 + seq!['"', '>', '<', '/'] + t + seq!['>'],
        ) == Ok::<Tree, Fault>(
            Tree {
                children: Seq::empty(),
                kind: Kind::Element { tag: t, attrs: Map::empty().insert(k, v2) },
            },
        ),
{
    let s = seq!['<'] + t + seq![' '] + k + seq!['=', '"'] + v1 + seq!['"', ' '] + k + seq!['=', '"']
        + v2 + seq!['"', '>', '<', '/'] + t + seq!['>'];
    let tn = t.len() as int;
    let kn = k.len() as int;
    let q1 = 2 + tn;
    let e1 = q1 + kn + v1.len() + 3;
    let q2 = e1 + 1;
    let e2 = q2 + kn + v2.len() + 3;
    let c = e2 + 1;
    assert(s.len() == c + 3 + tn);
    assert(s[0] == '<');
    assert(s.subrange(1, 1 + tn) =~= t);
    assert(s[1 + tn] == ' ');
    assert(s.subrange(q1, q1 + kn) =~= k);
    assert(s[q1 + kn] == '=');
    assert(s[q1 + kn + 1] == '"');
    assert(s.subrange(q1 + kn + 2, q1 + kn + 2 + v1.len()) =~= v1);
    assert(s[e1 - 1] == '"');
    assert(s[e1] == ' ');
    assert(s.subrange(q2, q2 + kn) =~= k);
    assert(s[q2 + kn] == '=');
    assert(s[q2 + kn + 1] == '"');
    assert(s.subrange(q2 + kn + 2, q2 + kn + 2 + v2.len()) =~= v2);
    assert(s[e2 - 1] == '"');
    assert(s[e2] == '>');
    assert(s[c] == '<');
    assert(s[c + 1] == '/');
    assert(s.subrange(c + 2, c + 2 + tn) =~= t);
    assert(s[c + 2 + tn] == '>');
    lemma_attr_at(s, q1, k, v1);
    lemma_attr_at(s, q2, k, v2);
    lemma_duplicate_in(s, t, k, v1, v2, tn, kn, e1, e2);
}

#[verifier::rlimit(40)]
proof fn lemma_duplicate_in(
    s: Seq<char>,
    t: Seq<char>,
    k: Seq<char>,
    v1: Seq<char>,
    v2: Seq<char>,
    tn: int,
    kn: int,
    e1: int,
    e2: int,
)
    requires
        is_name(t),
        is_name(k),
        tn == t.len(),
        kn == k.len(),
        2 + tn < e1,
        e1 + 1 < e2,
        s.len() == e2 + 4 + tn,
        s[0] == '<',
        s.subrange(1, 1 + tn) == t,
        s[1 + tn] == ' ',
        kn > 0 ==> s[2 + tn] == s.subrange(2 + tn, 2 + tn + kn)[0],
        s.subrange(2 + tn, 2 + tn + kn) == k,
        s[2 + tn + kn] == '=',
        spec_attr(s, 2 + tn) == Ok::<(Seq<char>, Seq<char>, int), Fault>((k, v1, e1)),
        s[e1] == ' ',
        s.subrange(e1 + 1, e1 + 1 + kn) == k,
        s[e1 + 1 + kn] == '=',
        spec_attr(s, e1 + 1) == Ok::<(Seq<char>, Seq<char>, int), Fault>((k, v2, e2)),
        s[e2] == '>',
        s[e2 + 1] == '<',
        s[e2 + 2] == '/',
        s.subrange(e2 + 3, e2 + 3 + tn) == t,
        s[e2 + 3 + tn] == '>',
    ensures
        spec_parse(s) == Ok::<Tree, Fault>(
            Tree {
                children: Seq::empty(),
                kind: Kind::Element { tag: t, attrs: Map::empty().insert(k, v2) },
            },
        ),
{
    let attrs = Map::<Seq<char>, Seq<char>>::empty().insert(k, v2);
    let tree = Tree { children: Seq::<Tree>::empty(), kind: Kind::Element { tag: t, attrs } };
    // The start tag's name.
    assert forall|i: int| 1 <= i < 1 + tn implies CharClass::TagName.holds(#[trigger] s[i]) by {
        assert(s[i] == s.subrange(1, 1 + tn)[i - 1]);
    }
    lemma_run_over(s, 1, tn, CharClass::TagName);
    assert(spec_tag_name(s, 1) == (t, 1 + tn));
    // Its attributes, each after one space.
    if kn > 0 {
        assert(is_name_char(k[0]));
        assert(s[e1 + 1] == s.subrange(e1 + 1, e1 + 1 + kn)[0]);
    }
    lemma_run_over(s, 1 + tn, 1, CharClass::Whitespace);
    lemma_run_over(s, e1, 1, CharClass::Whitespace);
    assert(run_len(s, e2, CharClass::Whitespace) == 0);
    assert(spec_attributes(s, e2, attrs) == Ok::<(Map<Seq<char>, Seq<char>>, int), Fault>((attrs, e2)));
    assert(Map::<Seq<char>, Seq<char>>::empty().insert(k, v1).insert(k, v2) =~= attrs);
    assert(spec_attributes(s, e1, Map::empty().insert(k, v1)) == Ok::<(Map<Seq<char>, Seq<char>>, int), Fault>((attrs, e2)));
    assert(spec_attributes(s, 1 + tn, Map::empty()) == Ok::<(Map<Seq<char>, Seq<char>>, int), Fault>((attrs, e2)));
    // No children: `</` follows the start tag at once.
    assert(run_len(s, e2 + 1, CharClass::Whitespace) == 0);
    assert(starts_with_at(s, e2 + 1, seq!['<', '/'])) by {
        assert(s.subrange(e2 + 1, e2 + 3) =~= seq!['<', '/']);
    }
    assert(spec_nodes(s, e2 + 1) == Ok::<(Seq<Tree>, int), Fault>((Seq::empty(), e2 + 1)));
    // The end tag names the element again.
    assert forall|i: int| e2 + 3 <= i < e2 + 3 + tn implies CharClass::TagName.holds(#[trigger] s[i]) by {
        assert(s[i] == s.subrange(e2 + 3, e2 + 3 + tn)[i - e2 - 3]);
    }
    lemma_run_over(s, e2 + 3, tn, CharClass::TagName);
    assert(spec_tag_name(s, e2 + 3) == (t, e2 + 3 + tn));
    assert(spec_element(s, 0) == Ok::<(Tree, int), Fault>((tree, s.len() as int)));
    // It is the only node of the document.
    if tn > 0 {
        assert(s[1] == s.subrange(1, 1 + tn)[0]);
    }
    assert(s[1] != '!' && s[1] != '/');
    assert(spec_node(s, 0) == Ok::<(Tree, int), Fault>((tree, s.len() as int)));
    assert(run_len(s, 0, CharClass::Whitespace) == 0);
    assert(!starts_with_at(s, 0, seq!['<', '/'])) by {
        assert(s.subrange(0, 2)[1] != '/');
    }
    assert(run_len(s, s.len() as int, CharClass::Whitespace) == 0);
    assert(spec_nodes(s, s.len() as int) == Ok::<(Seq<Tree>, int), Fault>((Seq::empty(), s.len() as int)));
    assert(seq![tree] + Seq::<Tree>::empty() =~= seq![tree]);
    assert(spec_nodes(s, 0) == Ok::<(Seq<Tree>, int), Fault>((seq![tree], s.len() as int)));
}

} // verus!
