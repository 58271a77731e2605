use vstd::prelude::*;
use vstd::std_specs::iter::IteratorSpec;
use crate::dom::{comment, elem, text, trees, AttrMap, AttrModel, Kind, Node, Tree};

verus! {

broadcast use vstd::string::group_string_axioms;

/// Why a document could not be parsed. Positions count characters from the
/// start of the input.
#[derive(Debug, PartialEq, Eq)]
pub enum ParseError {
    /// A rule needed a character past the end of the input.
    UnexpectedEndOfInput,
    /// A literal character or quote did not match.
    UnexpectedCharacter { expected: char, found: char, position: usize },
    /// A closing tag names another element than the one open.
    MismatchedClosingTag { opened: String, closed: String, position: usize },
    /// A comment opened at `position` has no `-` before the end of the input.
    UnterminatedComment { position: usize },
    /// A quoted value opened at `position` has no closing quote.
    UnterminatedAttributeValue { position: usize },
}

/// The mathematical value of a [`ParseError`].
pub enum Fault {
    EndOfInput,
    Unexpected { expected: char, found: char, position: int },
    Mismatched { opened: Seq<char>, closed: Seq<char>, position: int },
    UnterminatedComment { position: int },
    UnterminatedValue { position: int },
}

impl ParseError {
    pub open spec fn view(&self) -> Fault {
        match self {
            ParseError::UnexpectedEndOfInput => Fault::EndOfInput,
            ParseError::UnexpectedCharacter { expected, found, position } => Fault::Unexpected {
                expected: *expected,
                found: *found,
                position: *position as int,
            },
            ParseError::MismatchedClosingTag { opened, closed, position } => Fault::Mismatched {
                opened: opened@,
                closed: closed@,
                position: *position as int,
            },
            ParseError::UnterminatedComment { position } => Fault::UnterminatedComment {
                position: *position as int,
            },
            ParseError::UnterminatedAttributeValue { position } => Fault::UnterminatedValue {
                position: *position as int,
            },
        }
    }
}

/// The characters that `char::is_whitespace` accepts: those with the Unicode
/// White_Space property.
pub open spec fn is_space(c: char) -> bool {
    let u = c as u32;
    (0x9 <= u <= 0xd) || u == 0x20 || u == 0x85 || u == 0xa0 || u == 0x1680 || (0x2000 <= u
        <= 0x200a) || u == 0x2028 || u == 0x2029 || u == 0x202f || u == 0x205f || u == 0x3000
}

/// The characters of a tag or attribute name: ASCII letters and digits.
pub open spec fn is_name_char(c: char) -> bool {
    ('a' <= c && c <= 'z') || ('A' <= c && c <= 'Z') || ('0' <= c && c <= '9')
}

/// A class of characters that a run is made of.
#[derive(Clone, Copy)]
pub enum CharClass {
    Whitespace,
    TagName,
    /// Any character but the one given.
    Not(char),
}

impl CharClass {
    pub open spec fn holds(self, c: char) -> bool {
        match self {
            CharClass::Whitespace => is_space(c),
            CharClass::TagName => is_name_char(c),
            CharClass::Not(d) => c != d,
        }
    }

    /// Whether `c` belongs to the class.
    pub fn contains(self, c: char) -> (r: bool)
        ensures
            r == self.holds(c),
    {
        match self {
            CharClass::Whitespace => is_whitespace(c),
            CharClass::TagName => ('a' <= c && c <= 'z') || ('A' <= c && c <= 'Z') || ('0' <= c
                && c <= '9'),
            CharClass::Not(d) => c != d,
        }
    }
}

/// Whether `c` has the Unicode White_Space property.
pub fn is_whitespace(c: char) -> (r: bool)
    ensures
        r == is_space(c),
{
    let u = c as u32;
    (0x9 <= u && u <= 0xd) || u == 0x20 || u == 0x85 || u == 0xa0 || u == 0x1680 || (0x2000 <= u
        && u <= 0x200a) || u == 0x2028 || u == 0x2029 || u == 0x202f || u == 0x205f || u == 0x3000
}

/// How many characters from `p` on belong to `class`, up to the first that
/// does not or the end of `s`.
pub open spec fn run_len(s: Seq<char>, p: int, class: CharClass) -> nat
    decreases s.len() - p,
{
    if 0 <= p < s.len() && class.holds(s[p]) {
        1 + run_len(s, p + 1, class)
    } else {
        0
    }
}

/// Where the run of `class` that starts at `p` ends.
pub open spec fn run_end(s: Seq<char>, p: int, class: CharClass) -> int {
    p + run_len(s, p, class)
}

/// Whether `lit` stands in `s` at `p`.
pub open spec fn starts_with_at(s: Seq<char>, p: int, lit: Seq<char>) -> bool {
    0 <= p && p + lit.len() <= s.len() && s.subrange(p, p + lit.len()) == lit
}

/// Reading the character `c` at `p`: the position after it, or why not.
pub open spec fn expect(s: Seq<char>, p: int, c: char) -> Result<int, Fault> {
    if p < 0 || p >= s.len() {
        Err(Fault::EndOfInput)
    } else if s[p] == c {
        Ok(p + 1)
    } else {
        Err(Fault::Unexpected { expected: c, found: s[p], position: p })
    }
}

/// A name under `p` and the position after it.
pub open spec fn spec_tag_name(s: Seq<char>, p: int) -> (Seq<char>, int) {
    let e = run_end(s, p, CharClass::TagName);
    (s.subrange(p, e), e)
}

/// A quoted attribute value under `p`: its text and the position after the
/// closing quote.
pub open spec fn spec_attr_value(s: Seq<char>, p: int) -> Result<(Seq<char>, int), Fault> {
    if p < 0 || p >= s.len() {
        Err(Fault::EndOfInput)
    } else if s[p] != '"' && s[p] != '\'' {
        Err(Fault::Unexpected { expected: '"', found: s[p], position: p })
    } else {
        let e = run_end(s, p + 1, CharClass::Not(s[p]));
        if e >= s.len() {
            Err(Fault::UnterminatedValue { position: p })
        } else {
            Ok((s.subrange(p + 1, e), e + 1))
        }
    }
}

/// One attribute `name="value"` under `p`.
pub open spec fn spec_attr(s: Seq<char>, p: int) -> Result<(Seq<char>, Seq<char>, int), Fault> {
    let (name, q) = spec_tag_name(s, p);
    match expect(s, q, '=') {
        Err(e) => Err(e),
        Ok(q1) => match spec_attr_value(s, q1) {
            Err(e) => Err(e),
            Ok((value, q2)) => Ok((name, value, q2)),
        },
    }
}

/// The attributes from `p` up to the `>` that ends a start tag, added to
/// `acc` in order, so that a later value of a name replaces an earlier one.
/// The position returned is that of the `>`.
pub open spec fn spec_attributes(s: Seq<char>, p: int, acc: AttrModel) -> Result<(AttrModel, int), Fault>
    decreases s.len() - p,
{
    let w = run_end(s, p, CharClass::Whitespace);
    if w < 0 || w >= s.len() {
        Err(Fault::EndOfInput)
    } else if s[w] == '>' {
        Ok((acc, w))
    } else {
        match spec_attr(s, w) {
            Err(e) => Err(e),
            Ok((name, value, q)) => spec_attributes(s, q, acc.insert(name, value)),
        }
    }
}

/// A run of text under `p`, up to the next `<` or the end of the input.
pub open spec fn spec_text(s: Seq<char>, p: int) -> (Tree, int) {
    let e = run_end(s, p, CharClass::Not('<'));
    (Tree { children: Seq::empty(), kind: Kind::Text(s.subrange(p, e)) }, e)
}

/// A comment `<!--...-->` under `p`. Its text ends at the first `-`, which
/// must begin the closing `-->`.
pub open spec fn spec_comment(s: Seq<char>, p: int) -> Result<(Tree, int), Fault> {
    match expect(s, p, '<') {
        Err(e) => Err(e),
        Ok(p1) => match expect(s, p1, '!') {
            Err(e) => Err(e),
            Ok(p2) => match expect(s, p2, '-') {
                Err(e) => Err(e),
                Ok(p3) => match expect(s, p3, '-') {
                    Err(e) => Err(e),
                    Ok(p4) => {
                        let e = run_end(s, p4, CharClass::Not('-'));
                        if e >= s.len() {
                            Err(Fault::UnterminatedComment { position: p })
                        } else {
                            match expect(s, e + 1, '-') {
                                Err(f) => Err(f),
                                Ok(p6) => match expect(s, p6, '>') {
                                    Err(f) => Err(f),
                                    Ok(p7) => Ok(
                                        (
                                            Tree {
                                                children: Seq::empty(),
                                                kind: Kind::Comment(s.subrange(p4, e)),
                                            },
                                            p7,
                                        ),
                                    ),
                                },
                            }
                        }
                    },
                },
            },
        },
    }
}

/// An element under `p`: its start tag, its children and its end tag, which
/// must name it again.
pub open spec fn spec_element(s: Seq<char>, p: int) -> Result<(Tree, int), Fault>
    decreases s.len() - p, 0nat,
{
    match expect(s, p, '<') {
        Err(e) => Err(e),
        Ok(p1) => {
            let (tag, p2) = spec_tag_name(s, p1);
            match spec_attributes(s, p2, Map::empty()) {
                Err(e) => Err(e),
                Ok((attrs, p3)) => match expect(s, p3, '>') {
                    Err(e) => Err(e),
                    // A start tag always takes the input forward (see
                    // `lemma_attributes_progress`); the test keeps the
                    // recursion evidently well-founded.
                    Ok(p4) => if p4 <= p {
                        Err(Fault::EndOfInput)
                    } else {
                        match spec_nodes(s, p4) {
                            Err(e) => Err(e),
                            Ok((children, p5)) => match expect(s, p5, '<') {
                                Err(e) => Err(e),
                                Ok(p6) => match expect(s, p6, '/') {
                                    Err(e) => Err(e),
                                    Ok(p7) => {
                                        let (closed, p8) = spec_tag_name(s, p7);
                                        if closed != tag {
                                            Err(Fault::Mismatched { opened: tag, closed, position: p7 })
                                        } else {
                                            match expect(s, p8, '>') {
                                                Err(e) => Err(e),
                                                Ok(p9) => Ok(
                                                    (
                                                        Tree {
                                                            children,
                                                            kind: Kind::Element { tag, attrs },
                                                        },
                                                        p9,
                                                    ),
                                                ),
                                            }
                                        }
                                    },
                                },
                            },
                        }
                    },
                },
            }
        },
    }
}

/// One node under `p`, chosen by the two characters there: `<!` opens a
/// comment, any other `<` an element, anything else a run of text.
pub open spec fn spec_node(s: Seq<char>, p: int) -> Result<(Tree, int), Fault>
    decreases s.len() - p, 1nat,
{
    if p < 0 || p + 2 > s.len() {
        Err(Fault::EndOfInput)
    } else if s[p] == '<' && s[p + 1] == '!' {
        spec_comment(s, p)
    } else if s[p] == '<' {
        spec_element(s, p)
    } else {
        Ok(spec_text(s, p))
    }
}

/// The sibling nodes from `p` on, up to the end of the input or a `</`;
/// whitespace before each node is skipped.
pub open spec fn spec_nodes(s: Seq<char>, p: int) -> Result<(Seq<Tree>, int), Fault>
    decreases s.len() - p, 2nat,
{
    let w = run_end(s, p, CharClass::Whitespace);
    if w < 0 || w >= s.len() || starts_with_at(s, w, seq!['<', '/']) {
        Ok((Seq::empty(), w))
    } else {
        match spec_node(s, w) {
            Err(e) => Err(e),
            // A node always takes the input forward and stays within it
            // (see `lemma_node_progress`); the test keeps the recursion
            // evidently well-founded.
            Ok((n, q)) => if q <= w || q > s.len() {
                Err(Fault::EndOfInput)
            } else {
                match spec_nodes(s, q) {
                    Err(e) => Err(e),
                    Ok((rest, r)) => Ok((seq![n] + rest, r)),
                }
            },
        }
    }
}

/// The tree of a document: its one top-level node, or else an `html`
/// element without attributes that holds all top-level nodes in order.
pub open spec fn spec_parse(s: Seq<char>) -> Result<Tree, Fault> {
    match spec_nodes(s, 0) {
        Err(e) => Err(e),
        Ok((nodes, _)) => if nodes.len() == 1 {
            Ok(nodes[0])
        } else {
            Ok(
                Tree {
                    children: nodes,
                    kind: Kind::Element { tag: seq!['h', 't', 'm', 'l'], attrs: Map::empty() },
                },
            )
        },
    }
}

/// `prefix` put before the nodes of a successful result.
pub open spec fn after(prefix: Seq<Tree>, r: Result<(Seq<Tree>, int), Fault>) -> Result<(Seq<Tree>, int), Fault> {
    match r {
        Ok((rest, q)) => Ok((prefix + rest, q)),
        Err(e) => Err(e),
    }
}

/// Parses a whole document into one tree: its single top-level node, or an
/// `html` element without attributes that holds all top-level nodes in
/// order. Fails with the first violation of the grammar.
pub fn parse(source: String) -> (r: Result<Node, ParseError>)
    ensures
        match r {
            Ok(n) => n.wf() && spec_parse(source@) == Ok::<Tree, Fault>(n@),
            Err(e) => spec_parse(source@) == Err::<Tree, Fault>(e@),
        },
{
    let mut parser = Parser::new(0, source);
    let mut nodes = match parser.parse_nodes() {
        Ok(v) => v,
        Err(e) => return Err(e),
    };
    if nodes.len() == 1 {
        match nodes.pop() {
            Some(n) => return Ok(n),
            None => {},
        }
    }
    proof {
        reveal_strlit("html");
    }
    let name = "html".to_owned();
    assert(name@ =~= seq!['h', 't', 'm', 'l']);
    Ok(elem(name, AttrMap::new(), nodes))
}

/// A cursor over a document.
pub struct Parser {
    pos: usize,
    input: String,
    chars: Vec<char>,
}

impl Parser {
    /// The characters of the document.
    pub closed spec fn source(&self) -> Seq<char> {
        self.chars@
    }

    /// How many characters lie before the cursor.
    pub closed spec fn cursor(&self) -> int {
        self.pos as int
    }

    pub closed spec fn wf(&self) -> bool {
        self.chars@ == self.input@ && self.pos <= self.chars@.len()
    }

    /// A parser over `input` whose cursor stands after `pos` characters.
    pub fn new(pos: usize, input: String) -> (r: Parser)
        requires
            pos <= input@.len(),
        ensures
            r.wf(),
            r.source() == input@,
            r.cursor() == pos,
    {
        let mut chars: Vec<char> = Vec::new();
        let mut it = input.as_str().chars();
        loop
            invariant
                chars@ + it.remaining() == input@,
            ensures
                chars@ == input@,
            decreases input@.len() - chars@.len(),
        {
            match it.next() {
                Some(c) => {
                    chars.push(c);
                },
                None => {
                    assert(chars@ =~= input@);
                    break ;
                },
            }
        }
        Parser { pos, input, chars }
    }
    /// The character under the cursor.
    pub fn next_char(&self) -> (r: Result<char, ParseError>)
        requires
            self.wf(),
        ensures
            match r {
                Ok(c) => self.cursor() < self.source().len() && c == self.source()[self.cursor()],
                Err(e) => self.cursor() >= self.source().len() && e == ParseError::UnexpectedEndOfInput,
            },
    {
        if self.pos < self.chars.len() {
            Ok(self.chars[self.pos])
        } else {
            Err(ParseError::UnexpectedEndOfInput)
        }
    }

    /// The two characters under the cursor, or an error where fewer remain.
    pub fn next_two_char(&self) -> (r: Result<(char, char), ParseError>)
        requires
            self.wf(),
        ensures
            match r {
                Ok((a, b)) => self.cursor() + 2 <= self.source().len() && a == self.source()[self.cursor()]
                    && b == self.source()[self.cursor() + 1],
                Err(e) => self.cursor() + 2 > self.source().len() && e == ParseError::UnexpectedEndOfInput,
            },
    {
        if self.chars.len() - self.pos >= 2 {
            Ok((self.chars[self.pos], self.chars[self.pos + 1]))
        } else {
            Err(ParseError::UnexpectedEndOfInput)
        }
    }

    /// Whether the rest of the input starts with `lit`.
    pub fn starts_with(&self, lit: &str) -> (r: bool)
        requires
            self.wf(),
        ensures
            r == starts_with_at(self.source(), self.cursor(), lit@),
    {
        let n = lit.unicode_len();
        if n > self.chars.len() - self.pos {
            return false;
        }
        let mut i: usize = 0;
        while i < n
            invariant
                n == lit@.len(),
                self.pos + n <= self.chars.len(),
                i <= n,
                forall|j: int| 0 <= j < i ==> self.chars@[self.pos + j] == lit@[j],
            decreases n - i,
        {
            if self.chars[self.pos + i] != lit.get_char(i) {
                assert(self.chars@.subrange(self.pos as int, self.pos + n)[i as int] != lit@[i as int]);
                return false;
            }
            i = i + 1;
        }
        assert(self.chars@.subrange(self.pos as int, self.pos + n) =~= lit@);
        true
    }

    /// Whether the cursor stands at the end of the input.
    pub fn eof(&self) -> (r: bool)
        requires
            self.wf(),
        ensures
            r == (self.cursor() >= self.source().len()),
    {
        self.pos >= self.chars.len()
    }

    /// Takes the character under the cursor and moves past it.
    pub fn consume_char(&mut self) -> (r: Result<char, ParseError>)
        requires
            old(self).wf(),
        ensures
            final(self).wf(),
            final(self).source() == old(self).source(),
            match r {
                Ok(c) => old(self).cursor() < old(self).source().len() && c == old(self).source()[old(self).cursor()]
                    && final(self).cursor() == old(self).cursor() + 1,
                Err(e) => old(self).cursor() >= old(self).source().len() && e == ParseError::UnexpectedEndOfInput
                    && final(self).cursor() == old(self).cursor(),
            },
    {
        if self.pos < self.chars.len() {
            let c = self.chars[self.pos];
            self.pos = self.pos + 1;
            Ok(c)
        } else {
            Err(ParseError::UnexpectedEndOfInput)
        }
    }

    /// Takes the character under the cursor, which must be `c`.
    fn expect_char(&mut self, c: char) -> (r: Result<(), ParseError>)
        requires
            old(self).wf(),
        ensures
            final(self).wf(),
            final(self).source() == old(self).source(),
            old(self).cursor() <= final(self).cursor(),
            match r {
                Ok(_) => expect(old(self).source(), old(self).cursor(), c) == Ok::<int, Fault>(final(self).cursor()),
                Err(e) => expect(old(self).source(), old(self).cursor(), c) == Err::<int, Fault>(e@),
            },
    {
        let position = self.pos;
        match self.consume_char() {
            Ok(found) => {
                if found == c {
                    Ok(())
                } else {
                    Err(ParseError::UnexpectedCharacter { expected: c, found, position })
                }
            },
            Err(e) => Err(e),
        }
    }

    /// Takes the longest run of characters of `class` under the cursor.
    pub fn consume_while(&mut self, class: CharClass) -> (r: String)
        requires
            old(self).wf(),
        ensures
            final(self).wf(),
            final(self).source() == old(self).source(),
            final(self).cursor() == run_end(old(self).source(), old(self).cursor(), class),
            final(self).cursor() < final(self).source().len() ==> !class.holds(
                final(self).source()[final(self).cursor()],
            ),
            r@ == old(self).source().subrange(old(self).cursor(), final(self).cursor()),
    {
        let start = self.pos;
        while self.pos < self.chars.len() && class.contains(self.chars[self.pos])
            invariant
                self.wf(),
                self.chars@ == old(self).chars@,
                self.input == old(self).input,
                start == old(self).pos,
                start <= self.pos,
                run_end(self.chars@, start as int, class) == run_end(self.chars@, self.pos as int, class),
            decreases self.chars@.len() - self.pos,
        {
            self.pos = self.pos + 1;
        }
        self.input.as_str().substring_char(start, self.pos).to_owned()
    }

    /// Skips the whitespace under the cursor.
    pub fn consume_whitespace(&mut self)
        requires
            old(self).wf(),
        ensures
            final(self).wf(),
            final(self).source() == old(self).source(),
            final(self).cursor() == run_end(old(self).source(), old(self).cursor(), CharClass::Whitespace),
            final(self).cursor() < final(self).source().len() ==> !is_space(
                final(self).source()[final(self).cursor()],
            ),
    {
        self.consume_while(CharClass::Whitespace);
    }

    /// Takes a name made of ASCII letters and digits; it may be empty.
    pub fn parse_tag_name(&mut self) -> (r: String)
        requires
            old(self).wf(),
        ensures
            final(self).wf(),
            final(self).source() == old(self).source(),
            (r@, final(self).cursor()) == spec_tag_name(old(self).source(), old(self).cursor()),
            final(self).cursor() < final(self).source().len() ==> !is_name_char(
                final(self).source()[final(self).cursor()],
            ),
    {
        self.consume_while(CharClass::TagName)
    }
    /// Takes a value in single or double quotes and returns what stands
    /// between them.
    fn parse_attr_value(&mut self) -> (r: Result<String, ParseError>)
        requires
            old(self).wf(),
        ensures
            final(self).wf(),
            final(self).source() == old(self).source(),
            old(self).cursor() <= final(self).cursor(),
            match r {
                Ok(v) => spec_attr_value(old(self).source(), old(self).cursor()) == Ok::<(Seq<char>, int), Fault>((v@, final(self).cursor())),
                Err(e) => spec_attr_value(old(self).source(), old(self).cursor()) == Err::<(Seq<char>, int), Fault>(e@),
            },
    {
        let position = self.pos;
        let open = match self.consume_char() {
            Ok(c) => c,
            Err(e) => return Err(e),
        };
        if open != '"' && open != '\'' {
            return Err(ParseError::UnexpectedCharacter { expected: '"', found: open, position });
        }
        let value = self.consume_while(CharClass::Not(open));
        if self.eof() {
            return Err(ParseError::UnterminatedAttributeValue { position });
        }
        match self.expect_char(open) {
            Ok(_) => Ok(value),
            Err(e) => Err(e),
        }
    }

    /// Takes one attribute `name="value"`.
    fn parse_attr(&mut self) -> (r: Result<(String, String), ParseError>)
        requires
            old(self).wf(),
        ensures
            final(self).wf(),
            final(self).source() == old(self).source(),
            old(self).cursor() <= final(self).cursor(),
            match r {
                Ok((k, v)) => spec_attr(old(self).source(), old(self).cursor()) == Ok::<(Seq<char>, Seq<char>, int), Fault>((k@, v@, final(self).cursor())),
                Err(e) => spec_attr(old(self).source(), old(self).cursor()) == Err::<(Seq<char>, Seq<char>, int), Fault>(e@),
            },
    {
        let name = self.parse_tag_name();
        match self.expect_char('=') {
            Ok(_) => {},
            Err(e) => return Err(e),
        }
        match self.parse_attr_value() {
            Ok(value) => Ok((name, value)),
            Err(e) => Err(e),
        }
    }

    /// Takes the attributes of a start tag, up to and not including its `>`.
    /// A name given twice keeps its last value.
    fn parse_attributes(&mut self) -> (r: Result<AttrMap, ParseError>)
        requires
            old(self).wf(),
        ensures
            final(self).wf(),
            final(self).source() == old(self).source(),
            old(self).cursor() <= final(self).cursor(),
            match r {
                Ok(m) => m.wf() && spec_attributes(old(self).source(), old(self).cursor(), Map::empty())
                    == Ok::<(AttrModel, int), Fault>((m@, final(self).cursor())),
                Err(e) => spec_attributes(old(self).source(), old(self).cursor(), Map::empty())
                    == Err::<(AttrModel, int), Fault>(e@),
            },
    {
        let ghost s = self.chars@;
        let ghost start = self.pos as int;
        let mut attributes = AttrMap::new();
        loop
            invariant
                self.wf(),
                self.chars@ == s,
                s == old(self).source(),
                start == old(self).pos,
                start <= self.pos,
                attributes.wf(),
                spec_attributes(s, start, Map::empty()) == spec_attributes(s, self.pos as int, attributes@),
            decreases s.len() - self.pos,
        {
            self.consume_whitespace();
            match self.next_char() {
                Err(e) => return Err(e),
                Ok(c) => if c == '>' {
                    return Ok(attributes);
                },
            }
            match self.parse_attr() {
                Err(e) => return Err(e),
                Ok((name, value)) => attributes.insert(name, value),
            }
        }
    }
    /// Takes a run of text up to the next `<`.
    fn parse_text(&mut self) -> (r: Node)
        requires
            old(self).wf(),
        ensures
            final(self).wf(),
            final(self).source() == old(self).source(),
            r.wf(),
            (r@, final(self).cursor()) == spec_text(old(self).source(), old(self).cursor()),
    {
        text(self.consume_while(CharClass::Not('<')))
    }

    /// Takes a comment `<!--...-->`.
    fn parse_comment(&mut self) -> (r: Result<Node, ParseError>)
        requires
            old(self).wf(),
        ensures
            final(self).wf(),
            final(self).source() == old(self).source(),
            old(self).cursor() <= final(self).cursor(),
            match r {
                Ok(n) => n.wf() && old(self).cursor() < final(self).cursor() && spec_comment(
                    old(self).source(),
                    old(self).cursor(),
                ) == Ok::<(Tree, int), Fault>((n@, final(self).cursor())),
                Err(e) => spec_comment(old(self).source(), old(self).cursor()) == Err::<(Tree, int), Fault>(e@),
            },
    {
        let position = self.pos;
        match self.expect_char('<') {
            Ok(_) => {},
            Err(e) => return Err(e),
        }
        match self.expect_char('!') {
            Ok(_) => {},
            Err(e) => return Err(e),
        }
        match self.expect_char('-') {
            Ok(_) => {},
            Err(e) => return Err(e),
        }
        match self.expect_char('-') {
            Ok(_) => {},
            Err(e) => return Err(e),
        }
        let content = self.consume_while(CharClass::Not('-'));
        if self.eof() {
            return Err(ParseError::UnterminatedComment { position });
        }
        match self.expect_char('-') {
            Ok(_) => {},
            Err(e) => return Err(e),
        }
        match self.expect_char('-') {
            Ok(_) => {},
            Err(e) => return Err(e),
        }
        match self.expect_char('>') {
            Ok(_) => {},
            Err(e) => return Err(e),
        }
        Ok(comment(content))
    }

    /// Takes an element with its children and its end tag.
    fn parse_element(&mut self) -> (r: Result<Node, ParseError>)
        requires
            old(self).wf(),
        ensures
            final(self).wf(),
            final(self).source() == old(self).source(),
            old(self).cursor() <= final(self).cursor(),
            match r {
                Ok(n) => n.wf() && old(self).cursor() < final(self).cursor() && spec_element(
                    old(self).source(),
                    old(self).cursor(),
                ) == Ok::<(Tree, int), Fault>((n@, final(self).cursor())),
                Err(e) => spec_element(old(self).source(), old(self).cursor()) == Err::<(Tree, int), Fault>(e@),
            },
        decreases old(self).chars@.len() - old(self).pos, 0nat,
    {
        match self.expect_char('<') {
            Ok(_) => {},
            Err(e) => return Err(e),
        }
        let tag_name = self.parse_tag_name();
        let attrs = match self.parse_attributes() {
            Ok(m) => m,
            Err(e) => return Err(e),
        };
        match self.expect_char('>') {
            Ok(_) => {},
            Err(e) => return Err(e),
        }
        let children = match self.parse_nodes() {
            Ok(v) => v,
            Err(e) => return Err(e),
        };
        match self.expect_char('<') {
            Ok(_) => {},
            Err(e) => return Err(e),
        }
        match self.expect_char('/') {
            Ok(_) => {},
            Err(e) => return Err(e),
        }
        let position = self.pos;
        let closed = self.parse_tag_name();
        if !(closed == tag_name) {
            return Err(ParseError::MismatchedClosingTag { opened: tag_name, closed, position });
        }
        match self.expect_char('>') {
            Ok(_) => {},
            Err(e) => return Err(e),
        }
        Ok(elem(tag_name, attrs, children))
    }

    /// Takes one node: a comment, an element or a run of text, as the two
    /// characters under the cursor tell.
    fn parse_node(&mut self) -> (r: Result<Node, ParseError>)
        requires
            old(self).wf(),
        ensures
            final(self).wf(),
            final(self).source() == old(self).source(),
            old(self).cursor() <= final(self).cursor(),
            match r {
                Ok(n) => n.wf() && old(self).cursor() < final(self).cursor() && spec_node(
                    old(self).source(),
                    old(self).cursor(),
                ) == Ok::<(Tree, int), Fault>((n@, final(self).cursor())),
                Err(e) => spec_node(old(self).source(), old(self).cursor()) == Err::<(Tree, int), Fault>(e@),
            },
        decreases old(self).chars@.len() - old(self).pos, 1nat,
    {
        match self.next_two_char() {
            Err(e) => Err(e),
            Ok((a, b)) => if a == '<' && b == '!' {
                self.parse_comment()
            } else if a == '<' {
                self.parse_element()
            } else {
                Ok(self.parse_text())
            },
        }
    }

    /// Takes sibling nodes up to the end of the input or a `</`, skipping
    /// whitespace between them.
    fn parse_nodes(&mut self) -> (r: Result<Vec<Node>, ParseError>)
        requires
            old(self).wf(),
        ensures
            final(self).wf(),
            final(self).source() == old(self).source(),
            old(self).cursor() <= final(self).cursor(),
            match r {
                Ok(v) => (forall|i: int| 0 <= i < v@.len() ==> (#[trigger] v@[i]).wf()) && spec_nodes(
                    old(self).source(),
                    old(self).cursor(),
                ) == Ok::<(Seq<Tree>, int), Fault>((trees(v@), final(self).cursor())),
                Err(e) => spec_nodes(old(self).source(), old(self).cursor()) == Err::<(Seq<Tree>, int), Fault>(e@),
            },
        decreases old(self).chars@.len() - old(self).pos, 2nat,
    {
        let ghost s = self.chars@;
        let ghost start = self.pos as int;
        let mut nodes: Vec<Node> = Vec::new();
        loop
            invariant
                self.wf(),
                self.chars@ == s,
                s == old(self).source(),
                start == old(self).pos,
                start <= self.pos,
                forall|i: int| 0 <= i < nodes@.len() ==> (#[trigger] nodes@[i]).wf(),
                spec_nodes(s, start) == after(trees(nodes@), spec_nodes(s, self.pos as int)),
            decreases s.len() - self.pos,
        {
            let ghost p = self.pos as int;
            self.consume_whitespace();
            proof {
                reveal_strlit("</");
                assert("</"@ =~= seq!['<', '/']);
            }
            if self.eof() || self.starts_with("</") {
                assert(spec_nodes(s, p) == Ok::<(Seq<Tree>, int), Fault>((Seq::empty(), self.pos as int)));
                assert(trees(nodes@) + Seq::empty() =~= trees(nodes@));
                return Ok(nodes);
            }
            let ghost w = self.pos as int;
            match self.parse_node() {
                Err(e) => {
                    assert(spec_nodes(s, p) == Err::<(Seq<Tree>, int), Fault>(e@));
                    return Err(e);
                },
                Ok(n) => {
                    let ghost q = self.pos as int;
                    let ghost before = nodes@;
                    nodes.push(n);
                    proof {
                        assert(trees(nodes@) =~= trees(before).push(n@));
                        match spec_nodes(s, q) {
                            Ok((rest, r)) => {
                                assert(trees(nodes@) + rest =~= trees(before) + (seq![n@] + rest));
                            },
                            Err(_) => {},
                        }
                    }
                },
            }
        }
    }
}

} // verus!
