//! Flow filter atoms and the filter expression language.
//!
//! A [`Filter`] is one predicate over the attributes of a flow; a
//! [`FilterExpression`] is a boolean combination of them, parsed from the
//! proxy's filter language and kept in or-of-ands canonical form. An
//! [`Evaluator`] evaluates an expression continuously as atom truth values
//! become known, under three-valued logic, and latches the first decided
//! value.

use vstd::prelude::*;
use crate::bool_expr::{
    Clause, ContinuousEvaluation, Dnf, Expr, Literal, spec_eval_dnf, spec_eval_expr,
    spec_lit_equiv,
};

verus! {

/// Which side of a flow an atom speaks of.
#[derive(Clone, Copy, Debug, PartialEq, Eq, Structural)]
pub enum Direction {
    Request,
    Response,
    Both,
}

/// A textual match pattern. The expression engine treats it as opaque
/// text: compiling and running it against flow attributes happens where
/// the attributes are read.
#[derive(Clone, Debug)]
pub struct Regex {
    pub pattern: Vec<u8>,
}

impl View for Regex {
    type V = Seq<u8>;

    open spec fn view(&self) -> Seq<u8> {
        self.pattern@
    }
}

impl PartialEq for Regex {
    fn eq(&self, other: &Regex) -> (r: bool) {
        crate::address::eq_byte_vecs(&self.pattern, &other.pattern)
    }
}

impl vstd::std_specs::cmp::PartialEqSpecImpl for Regex {
    open spec fn obeys_eq_spec() -> bool {
        true
    }

    open spec fn eq_spec(&self, other: &Regex) -> bool {
        self@ == other@
    }
}

impl Regex {
    /// A pattern with the same text.
    pub fn duplicate(&self) -> (r: Regex)
        ensures
            r@ == self@,
    {
        Regex { pattern: crate::address::clone_bytes(&self.pattern) }
    }
}

/// One predicate over the attributes of a flow.
#[derive(Clone, Debug)]
pub enum Filter {
    Asset,
    All,
    Body(Direction, Regex),
    HttpResponseCode(u16),
    Comment(Regex),
    Domain(Regex),
    Dns,
    Destination(Regex),
    Error,
    Header(Direction, Regex),
    Http,
    Method(Regex),
    Marked,
    Marker(Regex),
    Meta(Regex),
    Direction(Direction),
    Replay(Direction),
    Source(Regex),
    ContentType(Direction, Regex),
    Tcp,
    Url(Regex),
    Udp,
    Websocket,
}

/// The mathematical value of a filter atom: the same shape with the
/// pattern text as a sequence.
pub enum FilterV {
    Asset,
    All,
    Body(Direction, Seq<u8>),
    HttpResponseCode(u16),
    Comment(Seq<u8>),
    Domain(Seq<u8>),
    Dns,
    Destination(Seq<u8>),
    Error,
    Header(Direction, Seq<u8>),
    Http,
    Method(Seq<u8>),
    Marked,
    Marker(Seq<u8>),
    Meta(Seq<u8>),
    Direction(Direction),
    Replay(Direction),
    Source(Seq<u8>),
    ContentType(Direction, Seq<u8>),
    Tcp,
    Url(Seq<u8>),
    Udp,
    Websocket,
}

impl View for Filter {
    type V = FilterV;

    open spec fn view(&self) -> FilterV {
        match self {
            Filter::Asset => FilterV::Asset,
            Filter::All => FilterV::All,
            Filter::Body(d, r) => FilterV::Body(*d, r@),
            Filter::HttpResponseCode(c) => FilterV::HttpResponseCode(*c),
            Filter::Comment(r) => FilterV::Comment(r@),
            Filter::Domain(r) => FilterV::Domain(r@),
            Filter::Dns => FilterV::Dns,
            Filter::Destination(r) => FilterV::Destination(r@),
            Filter::Error => FilterV::Error,
            Filter::Header(d, r) => FilterV::Header(*d, r@),
            Filter::Http => FilterV::Http,
            Filter::Method(r) => FilterV::Method(r@),
            Filter::Marked => FilterV::Marked,
            Filter::Marker(r) => FilterV::Marker(r@),
            Filter::Meta(r) => FilterV::Meta(r@),
            Filter::Direction(d) => FilterV::Direction(*d),
            Filter::Replay(d) => FilterV::Replay(*d),
            Filter::Source(r) => FilterV::Source(r@),
            Filter::ContentType(d, r) => FilterV::ContentType(*d, r@),
            Filter::Tcp => FilterV::Tcp,
            Filter::Url(r) => FilterV::Url(r@),
            Filter::Udp => FilterV::Udp,
            Filter::Websocket => FilterV::Websocket,
        }
    }
}

impl PartialEq for Filter {
    fn eq(&self, other: &Filter) -> (r: bool) {
        match (self, other) {
            (Filter::Asset, Filter::Asset) => true,
            (Filter::All, Filter::All) => true,
            (Filter::Body(d1, r1), Filter::Body(d2, r2)) => *d1 == *d2 && *r1 == *r2,
            (Filter::HttpResponseCode(c1), Filter::HttpResponseCode(c2)) => *c1 == *c2,
            (Filter::Comment(r1), Filter::Comment(r2)) => *r1 == *r2,
            (Filter::Domain(r1), Filter::Domain(r2)) => *r1 == *r2,
            (Filter::Dns, Filter::Dns) => true,
            (Filter::Destination(r1), Filter::Destination(r2)) => *r1 == *r2,
            (Filter::Error, Filter::Error) => true,
            (Filter::Header(d1, r1), Filter::Header(d2, r2)) => *d1 == *d2 && *r1 == *r2,
            (Filter::Http, Filter::Http) => true,
            (Filter::Method(r1), Filter::Method(r2)) => *r1 == *r2,
            (Filter::Marked, Filter::Marked) => true,
            (Filter::Marker(r1), Filter::Marker(r2)) => *r1 == *r2,
            (Filter::Meta(r1), Filter::Meta(r2)) => *r1 == *r2,
            (Filter::Direction(d1), Filter::Direction(d2)) => *d1 == *d2,
            (Filter::Replay(d1), Filter::Replay(d2)) => *d1 == *d2,
            (Filter::Source(r1), Filter::Source(r2)) => *r1 == *r2,
            (Filter::ContentType(d1, r1), Filter::ContentType(d2, r2)) => *d1 == *d2 && *r1 == *r2,
            (Filter::Tcp, Filter::Tcp) => true,
            (Filter::Url(r1), Filter::Url(r2)) => *r1 == *r2,
            (Filter::Udp, Filter::Udp) => true,
            (Filter::Websocket, Filter::Websocket) => true,
            _ => false,
        }
    }
}

impl vstd::std_specs::cmp::PartialEqSpecImpl for Filter {
    open spec fn obeys_eq_spec() -> bool {
        true
    }

    open spec fn eq_spec(&self, other: &Filter) -> bool {
        self@ == other@
    }
}

impl Filter {
    /// An atom with the same value.
    pub fn duplicate(&self) -> (r: Filter)
        ensures
            r@ == self@,
    {
        match self {
            Filter::Asset => Filter::Asset,
            Filter::All => Filter::All,
            Filter::Body(d, r) => Filter::Body(*d, r.duplicate()),
            Filter::HttpResponseCode(c) => Filter::HttpResponseCode(*c),
            Filter::Comment(r) => Filter::Comment(r.duplicate()),
            Filter::Domain(r) => Filter::Domain(r.duplicate()),
            Filter::Dns => Filter::Dns,
            Filter::Destination(r) => Filter::Destination(r.duplicate()),
            Filter::Error => Filter::Error,
            Filter::Header(d, r) => Filter::Header(*d, r.duplicate()),
            Filter::Http => Filter::Http,
            Filter::Method(r) => Filter::Method(r.duplicate()),
            Filter::Marked => Filter::Marked,
            Filter::Marker(r) => Filter::Marker(r.duplicate()),
            Filter::Meta(r) => Filter::Meta(r.duplicate()),
            Filter::Direction(d) => Filter::Direction(*d),
            Filter::Replay(d) => Filter::Replay(*d),
            Filter::Source(r) => Filter::Source(r.duplicate()),
            Filter::ContentType(d, r) => Filter::ContentType(*d, r.duplicate()),
            Filter::Tcp => Filter::Tcp,
            Filter::Url(r) => Filter::Url(r.duplicate()),
            Filter::Udp => Filter::Udp,
            Filter::Websocket => Filter::Websocket,
        }
    }
}

/// Two normal forms carry the same literals, clause by clause.
pub open spec fn spec_dnf_equiv(d1: Dnf, d2: Dnf) -> bool {
    &&& d1.clauses@.len() == d2.clauses@.len()
    &&& forall|i: int|
        0 <= i < d1.clauses@.len() ==> (#[trigger] d1.clauses@[i]).literals@.len()
            == d2.clauses@[i].literals@.len()
    &&& forall|i: int, j: int|
        0 <= i < d1.clauses@.len() && 0 <= j < d1.clauses@[i].literals@.len()
            ==> spec_lit_equiv(#[trigger] d1.clauses@[i].literals@[j], d2.clauses@[i].literals@[j])
}

/// Equivalent normal forms evaluate alike in every world.
pub proof fn lemma_eval_dnf_equiv(d1: Dnf, d2: Dnf, w: spec_fn(FilterV) -> bool)
    requires
        spec_dnf_equiv(d1, d2),
    ensures
        spec_eval_dnf(d1, w) == spec_eval_dnf(d2, w),
{
    assert forall|i: int|
        0 <= i < d1.clauses@.len() implies crate::bool_expr::spec_eval_clause(
        #[trigger] d1.clauses@[i],
        w,
    ) == crate::bool_expr::spec_eval_clause(d2.clauses@[i], w) by {
        if crate::bool_expr::spec_eval_clause(d1.clauses@[i], w) {
            assert forall|j: int|
                0 <= j < d2.clauses@[i].literals@.len() implies crate::bool_expr::spec_eval_lit(
                #[trigger] d2.clauses@[i].literals@[j],
                w,
            ) by {
                assert(spec_lit_equiv(d1.clauses@[i].literals@[j], d2.clauses@[i].literals@[j]));
                assert(crate::bool_expr::spec_eval_lit(d1.clauses@[i].literals@[j], w));
            }
        }
        if crate::bool_expr::spec_eval_clause(d2.clauses@[i], w) {
            assert forall|j: int|
                0 <= j < d1.clauses@[i].literals@.len() implies crate::bool_expr::spec_eval_lit(
                #[trigger] d1.clauses@[i].literals@[j],
                w,
            ) by {
                assert(spec_lit_equiv(d1.clauses@[i].literals@[j], d2.clauses@[i].literals@[j]));
                assert(crate::bool_expr::spec_eval_lit(d2.clauses@[i].literals@[j], w));
            }
        }
    }
    if spec_eval_dnf(d1, w) {
        let i = choose|i: int|
            0 <= i < d1.clauses@.len() && crate::bool_expr::spec_eval_clause(
                #[trigger] d1.clauses@[i],
                w,
            );
        assert(crate::bool_expr::spec_eval_clause(d2.clauses@[i], w));
        assert(spec_eval_dnf(d2, w));
    }
    if spec_eval_dnf(d2, w) {
        let i = choose|i: int|
            0 <= i < d2.clauses@.len() && crate::bool_expr::spec_eval_clause(
                #[trigger] d2.clauses@[i],
                w,
            );
        assert(crate::bool_expr::spec_eval_clause(d1.clauses@[i], w));
        assert(spec_eval_dnf(d1, w));
    }
}

/// An equivalent copy of a normal form.
#[verifier::loop_isolation(false)]
fn duplicate_dnf(d: &Dnf) -> (r: Dnf)
    ensures
        spec_dnf_equiv(r, *d),
        spec_dnf_equiv(*d, r),
{
    let mut clauses: Vec<Clause> = Vec::new();
    let mut i: usize = 0;
    while i < d.clauses.len()
        invariant
            i <= d.clauses@.len(),
            clauses@.len() == i,
            forall|t: int|
                0 <= t < i ==> (#[trigger] clauses@[t]).literals@.len()
                    == d.clauses@[t].literals@.len(),
            forall|t: int, u: int|
                0 <= t < i && 0 <= u < clauses@[t].literals@.len() ==> spec_lit_equiv(
                    #[trigger] clauses@[t].literals@[u],
                    d.clauses@[t].literals@[u],
                ) && spec_lit_equiv(d.clauses@[t].literals@[u], clauses@[t].literals@[u]),
        decreases d.clauses@.len() - i,
    {
        let mut literals: Vec<Literal> = Vec::new();
        let mut j: usize = 0;
        while j < d.clauses[i].literals.len()
            invariant
                i < d.clauses@.len(),
                j <= d.clauses@[i as int].literals@.len(),
                literals@.len() == j,
                forall|u: int|
                    0 <= u < j ==> spec_lit_equiv(
                        #[trigger] literals@[u],
                        d.clauses@[i as int].literals@[u],
                    ) && spec_lit_equiv(d.clauses@[i as int].literals@[u], literals@[u]),
            decreases d.clauses@[i as int].literals@.len() - j,
        {
            literals.push(d.clauses[i].literals[j].duplicate());
            j = j + 1;
        }
        clauses.push(Clause { literals });
        i = i + 1;
    }
    Dnf { clauses }
}

/// The first position at or after `pos` that does not hold a space.
#[verifier::loop_isolation(false)]
fn skip_spaces(input: &[u8], pos: usize) -> (r: usize)
    requires
        pos <= input@.len(),
    ensures
        pos <= r <= input@.len(),
        forall|k: int| pos <= k < r ==> input@[k] == ' ' as u8,
        r < input@.len() ==> input@[r as int] != ' ' as u8,
{
    let mut p = pos;
    while p < input.len() && input[p] == ' ' as u8
        invariant
            pos <= p <= input@.len(),
            forall|k: int| pos <= k < p ==> input@[k] == ' ' as u8,
        decreases input@.len() - p,
    {
        p = p + 1;
    }
    p
}

/// Whether a byte can stand in a bare pattern word: anything but the
/// operators, parentheses, quotes and spaces of the language.
pub open spec fn spec_word_byte(b: u8) -> bool {
    b != ' ' as u8 && b != '&' as u8 && b != '|' as u8 && b != '!' as u8 && b != '(' as u8 && b
        != ')' as u8 && b != '"' as u8
}

/// Whether the bytes from `pos` to the end form one bare word that is not
/// an atom name: non-empty, no operator, space, parenthesis or quote, and
/// not led by a tilde.
pub open spec fn spec_plain_word_from(s: Seq<u8>, pos: int) -> bool {
    &&& 0 <= pos < s.len()
    &&& s[pos] != '~' as u8
    &&& forall|k: int| pos <= k < s.len() ==> spec_word_byte(#[trigger] s[k])
}

/// Whether a byte can stand in a bare pattern word.
fn is_word_byte(b: u8) -> (r: bool)
    ensures
        r == spec_word_byte(b),
{
    b != ' ' as u8 && b != '&' as u8 && b != '|' as u8 && b != '!' as u8 && b != '(' as u8 && b
        != ')' as u8 && b != '"' as u8
}

/// The position after `expected` where the input at `pos` starts with
/// its bytes.
#[verifier::loop_isolation(false)]
fn take_name(input: &[u8], pos: usize, expected: &str) -> (r: Option<usize>)
    requires
        pos <= input@.len(),
    ensures
        r matches Some(q) ==> pos < q <= input@.len(),
{
    let e = expected.as_bytes();
    if e.len() == 0 || input.len() - pos < e.len() {
        return None;
    }
    let mut i: usize = 0;
    while i < e.len()
        invariant
            i <= e@.len(),
            pos + e@.len() <= input@.len(),
        decreases e@.len() - i,
    {
        if input[pos + i] != e[i] {
            return None;
        }
        i = i + 1;
    }
    Some(pos + e.len())
}

/// Reads a pattern argument: a double-quoted run, or a bare word up to
/// the next operator, parenthesis or space.
#[verifier::loop_isolation(false)]
fn parse_pattern(input: &[u8], pos: usize) -> (r: Result<(Regex, usize), ParseError>)
    requires
        pos <= input@.len(),
    ensures
        r matches Ok(t) ==> pos < t.1 <= input@.len(),
        spec_plain_word_from(input@, pos as int) ==> (r matches Ok(t) && t.1 == input@.len()
            && t.0@ == input@.subrange(pos as int, input@.len() as int)),
{
    let p = skip_spaces(input, pos);
    proof {
        if spec_plain_word_from(input@, pos as int) {
            // A word byte is never a space, so nothing was skipped.
            assert(p == pos);
        }
    }
    if p >= input.len() {
        return Err(ParseError { at: p });
    }
    let mut pattern: Vec<u8> = Vec::new();
    if input[p] == '"' as u8 {
        let mut q = p + 1;
        while q < input.len() && input[q] != '"' as u8
            invariant
                p + 1 <= q <= input@.len(),
            decreases input@.len() - q,
        {
            pattern.push(input[q]);
            q = q + 1;
        }
        if q >= input.len() {
            // The quote was never closed.
            return Err(ParseError { at: q });
        }
        Ok((Regex { pattern }, q + 1))
    } else {
        let mut q = p;
        while q < input.len() && is_word_byte(input[q])
            invariant
                p <= q <= input@.len(),
                pattern@ == input@.subrange(p as int, q as int),
            decreases input@.len() - q,
        {
            pattern.push(input[q]);
            q = q + 1;
            proof {
                assert(pattern@ =~= input@.subrange(p as int, q as int));
            }
        }
        if q == p {
            return Err(ParseError { at: p });
        }
        proof {
            if spec_plain_word_from(input@, pos as int) {
                assert(q == input@.len());
            }
        }
        Ok((Regex { pattern }, q))
    }
}

/// Reads a decimal status code argument.
fn parse_code(input: &[u8], pos: usize) -> (r: Result<(u16, usize), ParseError>)
    requires
        pos <= input@.len(),
    ensures
        r matches Ok(t) ==> pos < t.1 <= input@.len(),
{
    let p = skip_spaces(input, pos);
    if p >= input.len() {
        return Err(ParseError { at: p });
    }
    if input[p] < '0' as u8 || input[p] > '9' as u8 {
        return Err(ParseError { at: p });
    }
    let mut value: u32 = 0;
    let mut q = p;
    while q < input.len() && '0' as u8 <= input[q] && input[q] <= '9' as u8
        invariant
            p <= q <= input@.len(),
            value <= 65535,
        decreases input@.len() - q,
    {
        let digit = (input[q] - '0' as u8) as u32;
        if value > 6553 || (value == 6553 && digit > 5) {
            // The code would not fit a 16-bit status.
            return Err(ParseError { at: q });
        }
        value = value * 10 + digit;
        q = q + 1;
    }
    Ok((value as u16, q))
}

/// Reads one atom: `~` and a filter name with its argument where the name
/// takes one, or a bare or quoted word, which matches on the URL.
#[verifier::loop_isolation(false)]
fn parse_atom(input: &[u8], pos: usize) -> (r: Result<(Filter, usize), ParseError>)
    requires
        pos <= input@.len(),
    ensures
        r matches Ok(t) ==> pos < t.1 <= input@.len(),
        spec_plain_word_from(input@, pos as int) ==> match r {
            Ok(t) => {
                &&& t.1 == input@.len()
                &&& t.0 matches Filter::Url(rx) && rx@ == input@.subrange(
                    pos as int,
                    input@.len() as int,
                )
            },
            Err(_) => false,
        },
{
    let p = skip_spaces(input, pos);
    proof {
        if spec_plain_word_from(input@, pos as int) {
            assert(p == pos);
        }
    }
    if p >= input.len() {
        return Err(ParseError { at: p });
    }
    if input[p] != '~' as u8 {
        let (rx, q) = match parse_pattern(input, p) {
            Ok(t) => t,
            Err(e) => {
                return Err(e);
            },
        };
        return Ok((Filter::Url(rx), q));
    }
    // The name after the tilde tokenizes as in the reference language:
    // the longest known filter name that prefixes the input wins, and
    // whatever follows it is further input.
    let q0 = p + 1;
    if let Some(q) = take_name(input, q0, "websocket") {
        return Ok((Filter::Websocket, q));
    }
    if let Some(q) = take_name(input, q0, "replayq") {
        return Ok((Filter::Replay(Direction::Request), q));
    }
    if let Some(q) = take_name(input, q0, "replays") {
        return Ok((Filter::Replay(Direction::Response), q));
    }
    if let Some(q) = take_name(input, q0, "comment") {
        let (rx, q2) = match parse_pattern(input, q) {
            Ok(t) => t,
            Err(e) => {
                return Err(e);
            },
        };
        return Ok((Filter::Comment(rx), q2));
    }
    if let Some(q) = take_name(input, q0, "marked") {
        return Ok((Filter::Marked, q));
    }
    if let Some(q) = take_name(input, q0, "replay") {
        return Ok((Filter::Replay(Direction::Both), q));
    }
    if let Some(q) = take_name(input, q0, "marker") {
        let (rx, q2) = match parse_pattern(input, q) {
            Ok(t) => t,
            Err(e) => {
                return Err(e);
            },
        };
        return Ok((Filter::Marker(rx), q2));
    }
    if let Some(q) = take_name(input, q0, "http") {
        return Ok((Filter::Http, q));
    }
    if let Some(q) = take_name(input, q0, "meta") {
        let (rx, q2) = match parse_pattern(input, q) {
            Ok(t) => t,
            Err(e) => {
                return Err(e);
            },
        };
        return Ok((Filter::Meta(rx), q2));
    }
    if let Some(q) = take_name(input, q0, "dns") {
        return Ok((Filter::Dns, q));
    }
    if let Some(q) = take_name(input, q0, "tcp") {
        return Ok((Filter::Tcp, q));
    }
    if let Some(q) = take_name(input, q0, "udp") {
        return Ok((Filter::Udp, q));
    }
    if let Some(q) = take_name(input, q0, "all") {
        return Ok((Filter::All, q));
    }
    if let Some(q) = take_name(input, q0, "dst") {
        let (rx, q2) = match parse_pattern(input, q) {
            Ok(t) => t,
            Err(e) => {
                return Err(e);
            },
        };
        return Ok((Filter::Destination(rx), q2));
    }
    if let Some(q) = take_name(input, q0, "src") {
        let (rx, q2) = match parse_pattern(input, q) {
            Ok(t) => t,
            Err(e) => {
                return Err(e);
            },
        };
        return Ok((Filter::Source(rx), q2));
    }
    if let Some(q) = take_name(input, q0, "bq") {
        let (rx, q2) = match parse_pattern(input, q) {
            Ok(t) => t,
            Err(e) => {
                return Err(e);
            },
        };
        return Ok((Filter::Body(Direction::Request, rx), q2));
    }
    if let Some(q) = take_name(input, q0, "bs") {
        let (rx, q2) = match parse_pattern(input, q) {
            Ok(t) => t,
            Err(e) => {
                return Err(e);
            },
        };
        return Ok((Filter::Body(Direction::Response, rx), q2));
    }
    if let Some(q) = take_name(input, q0, "hq") {
        let (rx, q2) = match parse_pattern(input, q) {
            Ok(t) => t,
            Err(e) => {
                return Err(e);
            },
        };
        return Ok((Filter::Header(Direction::Request, rx), q2));
    }
    if let Some(q) = take_name(input, q0, "hs") {
        let (rx, q2) = match parse_pattern(input, q) {
            Ok(t) => t,
            Err(e) => {
                return Err(e);
            },
        };
        return Ok((Filter::Header(Direction::Response, rx), q2));
    }
    if let Some(q) = take_name(input, q0, "tq") {
        let (rx, q2) = match parse_pattern(input, q) {
            Ok(t) => t,
            Err(e) => {
                return Err(e);
            },
        };
        return Ok((Filter::ContentType(Direction::Request, rx), q2));
    }
    if let Some(q) = take_name(input, q0, "ts") {
        let (rx, q2) = match parse_pattern(input, q) {
            Ok(t) => t,
            Err(e) => {
                return Err(e);
            },
        };
        return Ok((Filter::ContentType(Direction::Response, rx), q2));
    }
    if let Some(q) = take_name(input, q0, "c") {
        let (code, q2) = match parse_code(input, q) {
            Ok(t) => t,
            Err(e) => {
                return Err(e);
            },
        };
        return Ok((Filter::HttpResponseCode(code), q2));
    }
    if let Some(q) = take_name(input, q0, "a") {
        return Ok((Filter::Asset, q));
    }
    if let Some(q) = take_name(input, q0, "e") {
        return Ok((Filter::Error, q));
    }
    if let Some(q) = take_name(input, q0, "q") {
        return Ok((Filter::Direction(Direction::Request), q));
    }
    if let Some(q) = take_name(input, q0, "s") {
        return Ok((Filter::Direction(Direction::Response), q));
    }
    if let Some(q) = take_name(input, q0, "b") {
        let (rx, q2) = match parse_pattern(input, q) {
            Ok(t) => t,
            Err(e) => {
                return Err(e);
            },
        };
        return Ok((Filter::Body(Direction::Both, rx), q2));
    }
    if let Some(q) = take_name(input, q0, "d") {
        let (rx, q2) = match parse_pattern(input, q) {
            Ok(t) => t,
            Err(e) => {
                return Err(e);
            },
        };
        return Ok((Filter::Domain(rx), q2));
    }
    if let Some(q) = take_name(input, q0, "h") {
        let (rx, q2) = match parse_pattern(input, q) {
            Ok(t) => t,
            Err(e) => {
                return Err(e);
            },
        };
        return Ok((Filter::Header(Direction::Both, rx), q2));
    }
    if let Some(q) = take_name(input, q0, "m") {
        let (rx, q2) = match parse_pattern(input, q) {
            Ok(t) => t,
            Err(e) => {
                return Err(e);
            },
        };
        return Ok((Filter::Method(rx), q2));
    }
    if let Some(q) = take_name(input, q0, "t") {
        let (rx, q2) = match parse_pattern(input, q) {
            Ok(t) => t,
            Err(e) => {
                return Err(e);
            },
        };
        return Ok((Filter::ContentType(Direction::Both, rx), q2));
    }
    if let Some(q) = take_name(input, q0, "u") {
        let (rx, q2) = match parse_pattern(input, q) {
            Ok(t) => t,
            Err(e) => {
                return Err(e);
            },
        };
        return Ok((Filter::Url(rx), q2));
    }
    Err(ParseError { at: q0 })
}

/// Reads a negation, a parenthesized expression, or an atom.
#[verifier::loop_isolation(false)]
fn parse_not(input: &[u8], pos: usize) -> (r: Result<(Expr, usize), ParseError>)
    requires
        pos <= input@.len(),
    ensures
        r matches Ok(t) ==> pos < t.1 <= input@.len(),
        spec_plain_word_from(input@, pos as int) ==> match r {
            Ok(t) => {
                &&& t.1 == input@.len()
                &&& t.0 matches Expr::Atom(f) && (f matches Filter::Url(rx) && rx@
                    == input@.subrange(pos as int, input@.len() as int))
            },
            Err(_) => false,
        },
    decreases input@.len() - pos, 0int,
{
    let p = skip_spaces(input, pos);
    proof {
        if spec_plain_word_from(input@, pos as int) {
            assert(p == pos);
        }
    }
    if p >= input.len() {
        return Err(ParseError { at: p });
    }
    if input[p] == '!' as u8 {
        let (e, q) = match parse_not(input, p + 1) {
            Ok(t) => t,
            Err(e) => {
                return Err(e);
            },
        };
        Ok((Expr::Not(Box::new(e)), q))
    } else if input[p] == '(' as u8 {
        let (e, q) = match parse_or(input, p + 1) {
            Ok(t) => t,
            Err(e) => {
                return Err(e);
            },
        };
        let q2 = skip_spaces(input, q);
        if q2 < input.len() && input[q2] == ')' as u8 {
            Ok((e, q2 + 1))
        } else {
            Err(ParseError { at: q2 })
        }
    } else {
        let (f, q) = match parse_atom(input, p) {
            Ok(t) => t,
            Err(e) => {
                return Err(e);
            },
        };
        Ok((Expr::Atom(f), q))
    }
}

/// Reads a conjunction: negations joined by `&` or by juxtaposition.
#[verifier::loop_isolation(false)]
fn parse_and(input: &[u8], pos: usize) -> (r: Result<(Expr, usize), ParseError>)
    requires
        pos <= input@.len(),
    ensures
        r matches Ok(t) ==> pos < t.1 <= input@.len(),
        spec_plain_word_from(input@, pos as int) ==> match r {
            Ok(t) => {
                &&& t.1 == input@.len()
                &&& t.0 matches Expr::Atom(f) && (f matches Filter::Url(rx) && rx@
                    == input@.subrange(pos as int, input@.len() as int))
            },
            Err(_) => false,
        },
    decreases input@.len() - pos, 1int,
{
    let (first, p0) = match parse_not(input, pos) {
        Ok(t) => t,
        Err(e) => {
            return Err(e);
        },
    };
    let mut e = first;
    let mut p = p0;
    let mut done = false;
    while !done
        invariant
            pos < p <= input@.len(),
            spec_plain_word_from(input@, pos as int) ==> (p == input@.len() && (e matches
            Expr::Atom(f) && (f matches Filter::Url(rx) && rx@ == input@.subrange(
                pos as int,
                input@.len() as int,
            )))),
        decreases input@.len() - p + (if done { 0int } else { 1int }),
    {
        let q = skip_spaces(input, p);
        if q < input.len() && input[q] == '&' as u8 {
            let (right, p2) = match parse_not(input, q + 1) {
                Ok(t) => t,
                Err(err) => {
                    return Err(err);
                },
            };
            e = Expr::And(Box::new(e), Box::new(right));
            p = p2;
        } else if q < input.len() && input[q] != '|' as u8 && input[q] != ')' as u8 {
            // Conjunction by juxtaposition, as in the reference language.
            let (right, p2) = match parse_not(input, q) {
                Ok(t) => t,
                Err(err) => {
                    return Err(err);
                },
            };
            e = Expr::And(Box::new(e), Box::new(right));
            p = p2;
        } else {
            done = true;
        }
    }
    Ok((e, p))
}

/// Reads a disjunction: conjunctions joined by `|`.
#[verifier::loop_isolation(false)]
fn parse_or(input: &[u8], pos: usize) -> (r: Result<(Expr, usize), ParseError>)
    requires
        pos <= input@.len(),
    ensures
        r matches Ok(t) ==> pos < t.1 <= input@.len(),
        spec_plain_word_from(input@, pos as int) ==> match r {
            Ok(t) => {
                &&& t.1 == input@.len()
                &&& t.0 matches Expr::Atom(f) && (f matches Filter::Url(rx) && rx@
                    == input@.subrange(pos as int, input@.len() as int))
            },
            Err(_) => false,
        },
    decreases input@.len() - pos, 2int,
{
    let (first, p0) = match parse_and(input, pos) {
        Ok(t) => t,
        Err(e) => {
            return Err(e);
        },
    };
    let mut e = first;
    let mut p = p0;
    let mut done = false;
    while !done
        invariant
            pos < p <= input@.len(),
            spec_plain_word_from(input@, pos as int) ==> (p == input@.len() && (e matches
            Expr::Atom(f) && (f matches Filter::Url(rx) && rx@ == input@.subrange(
                pos as int,
                input@.len() as int,
            )))),
        decreases input@.len() - p + (if done { 0int } else { 1int }),
    {
        let q = skip_spaces(input, p);
        if q < input.len() && input[q] == '|' as u8 {
            let (right, p2) = match parse_and(input, q + 1) {
                Ok(t) => t,
                Err(err) => {
                    return Err(err);
                },
            };
            e = Expr::Or(Box::new(e), Box::new(right));
            p = p2;
        } else {
            done = true;
        }
    }
    Ok((e, p))
}

/// A filter expression could not be parsed; `at` is the byte offset the
/// parser stopped at.
#[derive(Clone, Copy, Debug, PartialEq, Eq, Structural)]
pub struct ParseError {
    pub at: usize,
}

/// A filter expression: the tree it was built from, and the or-of-ands
/// canonical form it is evaluated in. In every world the two evaluate
/// alike.
#[derive(Debug)]
pub struct FilterExpression {
    ast: Expr,
    expression: Dnf,
}

impl FilterExpression {
    /// The expression tree the canonical form was built from.
    pub closed spec fn spec_ast(self) -> Expr {
        self.ast
    }

    /// The canonical form the expression is kept in.
    pub closed spec fn spec_expression(self) -> Dnf {
        self.expression
    }

    /// The canonical form of `expr`: in every world the two evaluate
    /// alike.
    pub fn from_expr(expr: Expr) -> (r: FilterExpression)
        ensures
            r.spec_ast() == expr,
            forall|w: spec_fn(FilterV) -> bool| #[trigger]
                spec_eval_dnf(r.spec_expression(), w) == spec_eval_expr(r.spec_ast(), w),
    {
        let expression = expr.to_dnf(true);
        FilterExpression { ast: expr, expression }
    }

    /// Parses the filter language: atoms `~name argument` tokenized
    /// longest-name-first, bare or quoted words matching on the URL,
    /// combined with `&`, `|`, `!`, parentheses and juxtaposition. The
    /// parsed tree is kept beside its or-of-ands canonical form, and in
    /// every world the two evaluate alike.
    pub fn parse(input: &[u8]) -> (r: Result<FilterExpression, ParseError>)
        ensures
            r matches Ok(fe) ==> forall|w: spec_fn(FilterV) -> bool| #[trigger]
                spec_eval_dnf(fe.spec_expression(), w) == spec_eval_expr(fe.spec_ast(), w),
            spec_plain_word_from(input@, 0) ==> match r {
                Ok(fe) => fe.spec_ast() matches Expr::Atom(f) && (f matches Filter::Url(rx)
                    && rx@ == input@),
                Err(_) => false,
            },
    {
        let (ast, p) = match parse_or(input, 0) {
            Ok(t) => t,
            Err(e) => {
                return Err(e);
            },
        };
        let q = skip_spaces(input, p);
        if q < input.len() {
            return Err(ParseError { at: q });
        }
        proof {
            if spec_plain_word_from(input@, 0) {
                assert(input@.subrange(0, input@.len() as int) =~= input@);
            }
        }
        Ok(FilterExpression::from_expr(ast))
    }

    /// Begins continuous evaluation of the expression with every atom
    /// unknown.
    pub fn begin_evaluate(&self) -> (r: Evaluator)
        ensures
            r.spec_inner().spec_wf(),
            spec_dnf_equiv(r.spec_inner().spec_dnf(), self.spec_expression()),
            forall|i: int, j: int|
                0 <= i < r.spec_inner().spec_dnf().clauses@.len() && 0 <= j < r.spec_inner(
                ).spec_dnf().clauses@[i].literals@.len() ==> (#[trigger] r.spec_inner().spec_truth(
                )[i][j]) is None,
    {
        Evaluator { evaluator: ContinuousEvaluation::new(duplicate_dnf(&self.expression)) }
    }
}

/// Continuous three-valued evaluation of a filter expression. Atom truth
/// values arrive in pushes; the first decided value latches and later
/// pushes change nothing.
#[derive(Debug)]
pub struct Evaluator {
    evaluator: ContinuousEvaluation,
}

impl Evaluator {
    /// The underlying evaluation state.
    pub closed spec fn spec_inner(self) -> ContinuousEvaluation {
        self.evaluator
    }

    /// The latched decision, if the expression is decided.
    pub fn get(&self) -> (r: Option<bool>)
        ensures
            r == self.spec_inner().spec_decision(),
    {
        self.evaluator.get()
    }

    /// Applies a batch of atom assignments and reports the decision; a
    /// decided evaluator is latched and ignores further pushes.
    pub fn push(&mut self, assignments: &Vec<(Filter, bool)>) -> (r: Option<bool>)
        requires
            old(self).spec_inner().spec_wf(),
        ensures
            final(self).spec_inner().spec_wf(),
            final(self).spec_inner().spec_dnf() == old(self).spec_inner().spec_dnf(),
            r == final(self).spec_inner().spec_decision(),
            old(self).spec_inner().spec_decision() is Some ==> final(self).spec_inner() == old(
                self,
            ).spec_inner(),
            old(self).spec_inner().spec_decision() is None ==> crate::bool_expr::spec_pushed(
                old(self).spec_inner(),
                final(self).spec_inner(),
                assignments@,
            ),
    {
        self.evaluator.push(assignments)
    }
}

} // verus!
