use vstd::prelude::*;

use vstd::string::StrSliceExecFns;

use crate::text::{chars_of, string_of};

verus! {

/// Why a template text could not be parsed.
#[derive(Clone, Copy, Debug, PartialEq, Eq, Structural)]
pub enum SyntaxError {
    /// A `{{` with no `}}` after it.
    Unterminated,
    /// A directive whose text is none of the accepted forms (an empty or
    /// ill-formed name, a bad quoted template name).
    Malformed,
    /// An `{{if NAME}}` that is never closed by `{{end}}`.
    Unclosed,
    /// An `{{else}}` outside any conditional.
    StrayElse,
    /// An `{{end}}` with no open conditional.
    StrayEnd,
    /// A second `{{else}}` in one conditional.
    RepeatedElse,
}

/// How a placeholder renders its value: as stored, or with its first letter
/// made upper case. A placeholder written with a leading capital asks for the
/// capitalized form.
#[derive(Clone, Copy, Debug, PartialEq, Eq, Structural)]
pub enum Case {
    AsIs,
    Capitalized,
}

/// One directive or literal run, as the scanner sees it.
pub ghost enum Lexeme {
    Text(Seq<char>),
    Var(Seq<char>),
    If(Seq<char>),
    Else,
    End,
    Embed(Seq<char>),
}

/// The mathematical form of a parsed node.
pub ghost enum NodeV {
    Lit(Seq<char>),
    Var(Seq<char>, Case),
    Cond(Seq<char>, Seq<NodeV>, Seq<NodeV>),
    Embed(Seq<char>),
}

/// Where a run of nodes stopped: at the end of the text, or at a directive
/// that closes or splits an enclosing conditional.
#[derive(Clone, Copy, Debug, PartialEq, Eq, Structural)]
pub enum Stop {
    Eof,
    Else,
    End,
}

pub open spec fn kw_if() -> Seq<char> {
    seq!['i', 'f']
}

pub open spec fn kw_else() -> Seq<char> {
    seq!['e', 'l', 's', 'e']
}

pub open spec fn kw_end() -> Seq<char> {
    seq!['e', 'n', 'd']
}

pub open spec fn kw_embed() -> Seq<char> {
    seq!['i', 'n', 'c', 'l', 'u', 'd', 'e']
}

pub open spec fn is_word_char(c: char) -> bool {
    ('a' <= c && c <= 'z') || ('A' <= c && c <= 'Z') || ('0' <= c && c <= '9') || c == '_'
}

/// A variable name: one or more ASCII letters, digits or underscores.
pub open spec fn is_word(n: Seq<char>) -> bool {
    n.len() > 0 && forall|k: int| 0 <= k < n.len() ==> is_word_char(#[trigger] n[k])
}

/// A template name: one or more characters, none of them a double quote.
pub open spec fn is_template_name(n: Seq<char>) -> bool {
    n.len() > 0 && forall|k: int| 0 <= k < n.len() ==> #[trigger] n[k] != '"'
}

pub open spec fn case_of(n: Seq<char>) -> Case {
    if n.len() > 0 && 'A' <= n[0] && n[0] <= 'Z' {
        Case::Capitalized
    } else {
        Case::AsIs
    }
}

/// The first `i' >= i` where the pair `c c` starts, or the length of `s`.
pub open spec fn find_pair(s: Seq<char>, i: int, c: char) -> int
    decreases s.len() - i,
{
    if i + 1 >= s.len() {
        s.len() as int
    } else if s[i] == c && s[i + 1] == c {
        i
    } else {
        find_pair(s, i + 1, c)
    }
}

/// What the text `b` between `{{` and `}}` denotes.
pub open spec fn classify(b: Seq<char>) -> Result<Lexeme, SyntaxError> {
    if b == kw_else() {
        Ok(Lexeme::Else)
    } else if b == kw_end() {
        Ok(Lexeme::End)
    } else if b.len() > 2 && b.take(2) == kw_if() && b[2] == ' ' {
        if is_word(b.skip(3)) {
            Ok(Lexeme::If(b.skip(3)))
        } else {
            Err(SyntaxError::Malformed)
        }
    } else if b.len() > 7 && b.take(7) == kw_embed() && b[7] == ' ' {
        let q = b.skip(8);
        if q.len() >= 2 && q[0] == '"' && q[q.len() - 1] == '"' && is_template_name(
            q.subrange(1, q.len() - 1),
        ) {
            Ok(Lexeme::Embed(q.subrange(1, q.len() - 1)))
        } else {
            Err(SyntaxError::Malformed)
        }
    } else if is_word(b) && b != kw_if() && b != kw_embed() {
        Ok(Lexeme::Var(b))
    } else {
        Err(SyntaxError::Malformed)
    }
}

/// The lexeme that starts at `i`, and where the next one starts.
pub open spec fn token_at(s: Seq<char>, i: int) -> Result<(Lexeme, int), SyntaxError> {
    let k = find_pair(s, i, '{');
    if k > i {
        Ok((Lexeme::Text(s.subrange(i, k)), k))
    } else {
        let j = find_pair(s, i + 2, '}');
        if j >= s.len() {
            Err(SyntaxError::Unterminated)
        } else {
            match classify(s.subrange(i + 2, j)) {
                Ok(t) => Ok((t, j + 2)),
                Err(e) => Err(e),
            }
        }
    }
}

pub open spec fn prepend(
    ns: Seq<NodeV>,
    r: Result<(Seq<NodeV>, int, Stop), SyntaxError>,
) -> Result<(Seq<NodeV>, int, Stop), SyntaxError> {
    match r {
        Ok((ms, k, st)) => Ok((ns + ms, k, st)),
        Err(e) => Err(e),
    }
}

/// The nodes from position `i` up to the end of the text or to the first
/// `{{else}}` or `{{end}}` that no conditional opened in between claims;
/// with the position after that and what stopped the run. Each lexeme ends
/// after it starts, so the position checks below never fail; they state the
/// forward progress that bounds the recursion.
pub open spec fn build(s: Seq<char>, i: int) -> Result<(Seq<NodeV>, int, Stop), SyntaxError>
    decreases s.len() - i,
{
    if i >= s.len() {
        Ok((Seq::empty(), i, Stop::Eof))
    } else {
        match token_at(s, i) {
            Err(e) => Err(e),
            Ok((t, j)) => if j <= i || j > s.len() {
                Err(SyntaxError::Malformed)
            } else {
                match t {
                    Lexeme::Else => Ok((Seq::empty(), j, Stop::Else)),
                    Lexeme::End => Ok((Seq::empty(), j, Stop::End)),
                    Lexeme::Text(x) => prepend(seq![NodeV::Lit(x)], build(s, j)),
                    Lexeme::Var(x) => prepend(seq![NodeV::Var(x, case_of(x))], build(s, j)),
                    Lexeme::Embed(x) => prepend(seq![NodeV::Embed(x)], build(s, j)),
                    Lexeme::If(x) => match build(s, j) {
                        Err(e) => Err(e),
                        Ok((a, k, st)) => if k <= i || k > s.len() {
                            Err(SyntaxError::Malformed)
                        } else {
                            match st {
                                Stop::Eof => Err(SyntaxError::Unclosed),
                                Stop::End => prepend(
                                    seq![NodeV::Cond(x, a, Seq::empty())],
                                    build(s, k),
                                ),
                                Stop::Else => match build(s, k) {
                                    Err(e) => Err(e),
                                    Ok((b, m, st2)) => if m <= i || m > s.len() {
                                        Err(SyntaxError::Malformed)
                                    } else {
                                        match st2 {
                                            Stop::Eof => Err(SyntaxError::Unclosed),
                                            Stop::Else => Err(SyntaxError::RepeatedElse),
                                            Stop::End => prepend(
                                                seq![NodeV::Cond(x, a, b)],
                                                build(s, m),
                                            ),
                                        }
                                    },
                                },
                            }
                        },
                    },
                }
            },
        }
    }
}

/// The node tree of a whole template text.
pub open spec fn parse_spec(s: Seq<char>) -> Result<Seq<NodeV>, SyntaxError> {
    match build(s, 0) {
        Err(e) => Err(e),
        Ok((ns, _, st)) => match st {
            Stop::Eof => Ok(ns),
            Stop::Else => Err(SyntaxError::StrayElse),
            Stop::End => Err(SyntaxError::StrayEnd),
        },
    }
}

/// A scanned lexeme, holding its text.
pub enum Token {
    Text(String),
    Var(String),
    If(String),
    Else,
    End,
    Embed(String),
}

impl View for Token {
    type V = Lexeme;

    open spec fn view(&self) -> Lexeme {
        match self {
            Token::Text(x) => Lexeme::Text(x@),
            Token::Var(x) => Lexeme::Var(x@),
            Token::If(x) => Lexeme::If(x@),
            Token::Else => Lexeme::Else,
            Token::End => Lexeme::End,
            Token::Embed(x) => Lexeme::Embed(x@),
        }
    }
}

/// A parsed template node.
pub enum Node {
    /// Text emitted as it stands.
    Literal(String),
    /// The string value of a variable, in the given case.
    Placeholder(String, Case),
    /// A boolean variable, the nodes used when it is true, and those used
    /// when it is false.
    Conditional(String, Vec<Node>, Vec<Node>),
    /// Another template, rendered in place.
    Embed(String),
}

pub open spec fn node_view(n: Node) -> NodeV
    decreases n,
{
    match n {
        Node::Literal(x) => NodeV::Lit(x@),
        Node::Placeholder(x, c) => NodeV::Var(x@, c),
        Node::Conditional(x, a, b) => NodeV::Cond(x@, nodes_view(a@), nodes_view(b@)),
        Node::Embed(x) => NodeV::Embed(x@),
    }
}

pub open spec fn nodes_view(v: Seq<Node>) -> Seq<NodeV>
    decreases v,
{
    if v.len() == 0 {
        Seq::empty()
    } else {
        nodes_view(v.drop_last()).push(node_view(v.last()))
    }
}

/// The view of a node sequence is taken element by element.
pub proof fn lemma_nodes_view_index(v: Seq<Node>)
    ensures
        nodes_view(v).len() == v.len(),
        forall|k: int| 0 <= k < v.len() ==> #[trigger] nodes_view(v)[k] == node_view(v[k]),
    decreases v.len(),
{
    if v.len() > 0 {
        lemma_nodes_view_index(v.drop_last());
    }
}

fn kw_if_chars() -> (r: Vec<char>)
    ensures
        r@ == kw_if(),
{
    vec!['i', 'f']
}

fn kw_else_chars() -> (r: Vec<char>)
    ensures
        r@ == kw_else(),
{
    vec!['e', 'l', 's', 'e']
}

fn kw_end_chars() -> (r: Vec<char>)
    ensures
        r@ == kw_end(),
{
    vec!['e', 'n', 'd']
}

fn kw_embed_chars() -> (r: Vec<char>)
    ensures
        r@ == kw_embed(),
{
    vec!['i', 'n', 'c', 'l', 'u', 'd', 'e']
}

/// Whether `s[lo..hi]` is exactly `w`.
fn same_at(s: &Vec<char>, lo: usize, hi: usize, w: &Vec<char>) -> (r: bool)
    requires
        lo <= hi <= s.len(),
    ensures
        r == (s@.subrange(lo as int, hi as int) == w@),
{
    if hi - lo != w.len() {
        assert(s@.subrange(lo as int, hi as int).len() != w@.len());
        return false;
    }
    let mut k: usize = 0;
    while k < w.len()
        invariant
            hi - lo == w.len(),
            lo <= hi <= s.len(),
            k <= w.len(),
            forall|m: int| 0 <= m < k ==> s@[lo + m] == w@[m],
        decreases w.len() - k,
    {
        if s[lo + k] != w[k] {
            assert(s@.subrange(lo as int, hi as int)[k as int] != w@[k as int]);
            return false;
        }
        k = k + 1;
    }
    assert(s@.subrange(lo as int, hi as int) =~= w@);
    true
}

/// Whether `s[lo..hi]` is a variable name.
fn word_at(s: &Vec<char>, lo: usize, hi: usize) -> (r: bool)
    requires
        lo <= hi <= s.len(),
    ensures
        r == is_word(s@.subrange(lo as int, hi as int)),
{
    if lo == hi {
        return false;
    }
    let mut k: usize = lo;
    while k < hi
        invariant
            lo <= k <= hi <= s.len(),
            forall|m: int| lo <= m < k ==> is_word_char(#[trigger] s@[m]),
        decreases hi - k,
    {
        let c = s[k];
        if !(('a' <= c && c <= 'z') || ('A' <= c && c <= 'Z') || ('0' <= c && c <= '9') || c
            == '_') {
            assert(s@.subrange(lo as int, hi as int)[k - lo] == c);
            return false;
        }
        k = k + 1;
    }
    assert forall|m: int| 0 <= m < hi - lo implies is_word_char(
        #[trigger] s@.subrange(lo as int, hi as int)[m],
    ) by {
        assert(s@.subrange(lo as int, hi as int)[m] == s@[lo + m]);
    }
    true
}

/// Whether `s[lo..hi]` is a template name.
fn template_name_at(s: &Vec<char>, lo: usize, hi: usize) -> (r: bool)
    requires
        lo <= hi <= s.len(),
    ensures
        r == is_template_name(s@.subrange(lo as int, hi as int)),
{
    if lo == hi {
        return false;
    }
    let mut k: usize = lo;
    while k < hi
        invariant
            lo <= k <= hi <= s.len(),
            forall|m: int| lo <= m < k ==> #[trigger] s@[m] != '"',
        decreases hi - k,
    {
        if s[k] == '"' {
            assert(s@.subrange(lo as int, hi as int)[k - lo] == '"');
            return false;
        }
        k = k + 1;
    }
    assert forall|m: int| 0 <= m < hi - lo implies #[trigger] s@.subrange(
        lo as int,
        hi as int,
    )[m] != '"' by {
        assert(s@.subrange(lo as int, hi as int)[m] == s@[lo + m]);
    }
    true
}

/// The first position at or after `i` where the pair `c c` starts, or the
/// length of `s`.
fn find_pair_at(s: &Vec<char>, i: usize, c: char) -> (k: usize)
    requires
        i <= s.len(),
    ensures
        k == find_pair(s@, i as int, c),
        i <= k <= s.len(),
        k < s.len() ==> k + 1 < s.len(),
{
    let mut p: usize = i;
    while s.len() - p >= 2
        invariant
            i <= p <= s.len(),
            find_pair(s@, i as int, c) == find_pair(s@, p as int, c),
        decreases s.len() - p,
    {
        if s[p] == c && s[p + 1] == c {
            return p;
        }
        p = p + 1;
    }
    s.len()
}

/// The lexeme denoted by the directive text `s[lo..hi]`.
fn classify_at(s: &Vec<char>, lo: usize, hi: usize) -> (r: Result<Token, SyntaxError>)
    requires
        lo <= hi <= s.len(),
    ensures
        match r {
            Ok(t) => classify(s@.subrange(lo as int, hi as int)) == Ok::<Lexeme, SyntaxError>(t@),
            Err(e) => classify(s@.subrange(lo as int, hi as int)) == Err::<Lexeme, SyntaxError>(e),
        },
{
    let ghost b = s@.subrange(lo as int, hi as int);
    let w_if = kw_if_chars();
    let w_embed = kw_embed_chars();
    if same_at(s, lo, hi, &kw_else_chars()) {
        return Ok(Token::Else);
    }
    if same_at(s, lo, hi, &kw_end_chars()) {
        return Ok(Token::End);
    }
    if hi - lo > 2 && same_at(s, lo, lo + 2, &w_if) && s[lo + 2] == ' ' {
        assert(b.take(2) =~= s@.subrange(lo as int, lo + 2));
        assert(b.skip(3) =~= s@.subrange(lo + 3, hi as int));
        if word_at(s, lo + 3, hi) {
            return Ok(Token::If(string_of(s, lo + 3, hi)));
        } else {
            return Err(SyntaxError::Malformed);
        }
    }
    assert(hi - lo > 2 ==> b.take(2) =~= s@.subrange(lo as int, lo + 2));
    if hi - lo > 7 && same_at(s, lo, lo + 7, &w_embed) && s[lo + 7] == ' ' {
        assert(b.take(7) =~= s@.subrange(lo as int, lo + 7));
        let ghost q = b.skip(8);
        assert(q =~= s@.subrange(lo + 8, hi as int));
        if hi - lo >= 10 && s[lo + 8] == '"' && s[hi - 1] == '"' && template_name_at(
            s,
            lo + 9,
            hi - 1,
        ) {
            assert(q.subrange(1, q.len() - 1) =~= s@.subrange(lo + 9, hi - 1));
            return Ok(Token::Embed(string_of(s, lo + 9, hi - 1)));
        } else {
            assert(q.len() >= 2 ==> q.subrange(1, q.len() - 1) =~= s@.subrange(lo + 9, hi - 1));
            return Err(SyntaxError::Malformed);
        }
    }
    assert(hi - lo > 7 ==> b.take(7) =~= s@.subrange(lo as int, lo + 7));
    if word_at(s, lo, hi) && !same_at(s, lo, hi, &w_if) && !same_at(s, lo, hi, &w_embed) {
        Ok(Token::Var(string_of(s, lo, hi)))
    } else {
        Err(SyntaxError::Malformed)
    }
}

/// The lexeme that starts at `i < s.len()`, and where the next one starts.
fn token_at_exec(s: &Vec<char>, i: usize) -> (r: Result<(Token, usize), SyntaxError>)
    requires
        i < s.len(),
    ensures
        match r {
            Ok((t, j)) => token_at(s@, i as int) == Ok::<(Lexeme, int), SyntaxError>(
                (t@, j as int),
            ) && i < j <= s.len(),
            Err(e) => token_at(s@, i as int) == Err::<(Lexeme, int), SyntaxError>(e),
        },
{
    let k = find_pair_at(s, i, '{');
    if k > i {
        return Ok((Token::Text(string_of(s, i, k)), k));
    }
    let j = find_pair_at(s, i + 2, '}');
    if j >= s.len() {
        return Err(SyntaxError::Unterminated);
    }
    match classify_at(s, i + 2, j) {
        Ok(t) => Ok((t, j + 2)),
        Err(e) => Err(e),
    }
}

proof fn lemma_push_node(
    acc: Seq<Node>,
    n: Node,
    r: Result<(Seq<NodeV>, int, Stop), SyntaxError>,
)
    ensures
        prepend(nodes_view(acc), prepend(seq![node_view(n)], r)) == prepend(
            nodes_view(acc.push(n)),
            r,
        ),
{
    assert(acc.push(n).drop_last() =~= acc);
    match r {
        Ok((ms, k, st)) => {
            assert(nodes_view(acc) + (seq![node_view(n)] + ms) =~= nodes_view(acc).push(
                node_view(n),
            ) + ms);
        },
        Err(_) => {},
    }
}

/// The case that a placeholder written as `x` asks for.
fn case_of_name(x: &String) -> (c: Case)
    ensures
        c == case_of(x@),
{
    if x.as_str().is_empty() {
        return Case::AsIs;
    }
    let f = x.as_str().get_char(0);
    if 'A' <= f && f <= 'Z' {
        Case::Capitalized
    } else {
        Case::AsIs
    }
}

/// The nodes from position `i0` up to the end of the text or to an `{{else}}`
/// or `{{end}}` that closes an enclosing conditional.
fn build_from(s: &Vec<char>, i0: usize) -> (r: Result<(Vec<Node>, usize, Stop), SyntaxError>)
    requires
        i0 <= s.len(),
    ensures
        match r {
            Ok((v, k, st)) => {
                &&& build(s@, i0 as int) == Ok::<(Seq<NodeV>, int, Stop), SyntaxError>(
                    (nodes_view(v@), k as int, st),
                )
                &&& i0 <= k <= s.len()
                &&& i0 < s.len() ==> i0 < k
            },
            Err(e) => build(s@, i0 as int) == Err::<(Seq<NodeV>, int, Stop), SyntaxError>(e),
        },
    decreases s.len() - i0,
{
    let mut acc: Vec<Node> = Vec::new();
    let mut i: usize = i0;
    loop
        invariant
            i0 <= i <= s.len(),
            build(s@, i0 as int) == prepend(nodes_view(acc@), build(s@, i as int)),
        decreases s.len() - i,
    {
        if i >= s.len() {
            assert(nodes_view(acc@) + Seq::empty() =~= nodes_view(acc@));
            return Ok((acc, i, Stop::Eof));
        }
        let (t, j) = match token_at_exec(s, i) {
            Ok(p) => p,
            Err(e) => {
                return Err(e);
            },
        };
        let ghost before = acc@;
        match t {
            Token::Else => {
                assert(nodes_view(acc@) + Seq::empty() =~= nodes_view(acc@));
                return Ok((acc, j, Stop::Else));
            },
            Token::End => {
                assert(nodes_view(acc@) + Seq::empty() =~= nodes_view(acc@));
                return Ok((acc, j, Stop::End));
            },
            Token::Text(x) => {
                let n = Node::Literal(x);
                proof {
                    lemma_push_node(before, n, build(s@, j as int));
                }
                acc.push(n);
                i = j;
            },
            Token::Var(x) => {
                let c = case_of_name(&x);
                let n = Node::Placeholder(x, c);
                proof {
                    lemma_push_node(before, n, build(s@, j as int));
                }
                acc.push(n);
                i = j;
            },
            Token::Embed(x) => {
                let n = Node::Embed(x);
                proof {
                    lemma_push_node(before, n, build(s@, j as int));
                }
                acc.push(n);
                i = j;
            },
            Token::If(x) => {
                let (a, k, st) = match build_from(s, j) {
                    Ok(p) => p,
                    Err(e) => {
                        return Err(e);
                    },
                };
                match st {
                    Stop::Eof => {
                        return Err(SyntaxError::Unclosed);
                    },
                    Stop::End => {
                        let none: Vec<Node> = Vec::new();
                        let n = Node::Conditional(x, a, none);
                        assert(nodes_view(none@) =~= Seq::<NodeV>::empty());
                        proof {
                            lemma_push_node(before, n, build(s@, k as int));
                        }
                        acc.push(n);
                        i = k;
                    },
                    Stop::Else => {
                        let (b, m, st2) = match build_from(s, k) {
                            Ok(p) => p,
                            Err(e) => {
                                return Err(e);
                            },
                        };
                        match st2 {
                            Stop::Eof => {
                                return Err(SyntaxError::Unclosed);
                            },
                            Stop::Else => {
                                return Err(SyntaxError::RepeatedElse);
                            },
                            Stop::End => {
                                let n = Node::Conditional(x, a, b);
                                proof {
                                    lemma_push_node(before, n, build(s@, m as int));
                                }
                                acc.push(n);
                                i = m;
                            },
                        }
                    },
                }
            },
        }
    }
}

/// Parses a template text into its node tree.
pub fn parse(text: &str) -> (r: Result<Vec<Node>, SyntaxError>)
    ensures
        match r {
            Ok(v) => parse_spec(text@) == Ok::<Seq<NodeV>, SyntaxError>(nodes_view(v@)),
            Err(e) => parse_spec(text@) == Err::<Seq<NodeV>, SyntaxError>(e),
        },
{
    let s = chars_of(text);
    match build_from(&s, 0) {
        Err(e) => Err(e),
        Ok((v, _, st)) => match st {
            Stop::Eof => Ok(v),
            Stop::Else => Err(SyntaxError::StrayElse),
            Stop::End => Err(SyntaxError::StrayEnd),
        },
    }
}

} // verus!
