//! The record grammar of a motif stream.
//!
//! A line holds `P u:v c o:p q:r x:y`, cut at white space. `P` is a flag and
//! is not looked at. `u:v` is the node pair that the line is about; a node is
//! a prefix followed by a number, and is split at its first digit. `c` is `1`
//! where the two nodes are connected and `0` where they are not. `o:p` is the
//! orbit pair that the two nodes occupy. What follows the orbit pair describes
//! the interior of the motif and is not looked at.
//!
//! The caller reads the lines. A line of no characters at all is what a
//! reader hands back at the end of its input, and it parses to `None`.

use crate::text::{
    fill, first_at, is_digit, lemma_tokens_step, lemma_two_pieces, next_token, parse_u32, pieces,
    push_all, split_pair, string_of, tokens, u32_of,
};
use vstd::prelude::*;
use vstd::slice::slice_subrange;

verus! {

/// What is wrong with a line. Every value is a violation of the grammar: the
/// input is malformed.
#[derive(Debug, Clone, Copy, PartialEq, Eq)]
pub enum ParseError {
    /// The line ends before the node pair.
    MissingNodePair,
    /// The node pair does not hold exactly one colon.
    NodePair,
    /// A node holds no digit.
    NoDigits,
    /// The text after a node's prefix, or one side of the orbit pair, is not
    /// a number of 32 bits.
    ParseIntErr,
    /// The line ends before the connectivity flag.
    MissingConnectivity,
    /// The connectivity flag is neither `0` nor `1`.
    Connectivity,
    /// The line ends before the orbit pair.
    MissingOrbitPair,
    /// The orbit pair does not hold exactly one colon.
    OrbitPair,
}

/// A parsed motif.
#[derive(Debug, PartialEq, Eq)]
pub struct MotifInfo {
    /// The key under which the motif is counted: `u:v:o:p`, as written.
    pub raw: String,
    /// The prefix of u, which names the data set that u is from.
    pub u_prefix: String,
    /// The node number of u.
    pub u: u32,
    /// The prefix of v, which names the data set that v is from.
    pub v_prefix: String,
    /// The node number of v.
    pub v: u32,
    /// The orbit of u.
    pub o: u32,
    /// The orbit of v.
    pub p: u32,
}

/// A `MotifInfo` as a mathematical value.
pub struct MotifView {
    pub raw: Seq<char>,
    pub u_prefix: Seq<char>,
    pub u: u32,
    pub v_prefix: Seq<char>,
    pub v: u32,
    pub o: u32,
    pub p: u32,
}

impl View for MotifInfo {
    type V = MotifView;

    open spec fn view(&self) -> MotifView {
        MotifView {
            raw: self.raw@,
            u_prefix: self.u_prefix@,
            u: self.u,
            v_prefix: self.v_prefix@,
            v: self.v,
            o: self.o,
            p: self.p,
        }
    }
}

/// What the sketch needs of a line: the node pair and the orbit pair as
/// written, and whether the nodes are connected.
#[derive(Debug, PartialEq, Eq)]
pub struct CMSInfo {
    /// The node pair, `u:v`.
    pub uv: String,
    /// The orbit pair, `o:p`.
    pub op: String,
    /// 1 where u and v are connected, else 0.
    pub c: u8,
}

/// A `CMSInfo` as a mathematical value.
pub struct CMSView {
    pub uv: Seq<char>,
    pub op: Seq<char>,
    pub c: u8,
}

impl View for CMSInfo {
    type V = CMSView;

    open spec fn view(&self) -> CMSView {
        CMSView { uv: self.uv@, op: self.op@, c: self.c }
    }
}

/// All that the grammar reads from one line.
pub struct Record {
    /// The node pair as written.
    pub uv: Seq<char>,
    pub u_prefix: Seq<char>,
    pub u: u32,
    pub v_prefix: Seq<char>,
    pub v: u32,
    /// The connectivity flag.
    pub c: u8,
    /// The orbit pair as written.
    pub op: Seq<char>,
    pub o: u32,
    pub p: u32,
}

/// The key under which an orbit pair is counted for a node pair: node
/// pair, colon, orbit pair.
pub open spec fn key_of(uv: Seq<char>, op: Seq<char>) -> Seq<char> {
    uv + seq![':'] + op
}

impl Record {
    /// The key under which the line is counted.
    pub open spec fn key(self) -> Seq<char> {
        key_of(self.uv, self.op)
    }

    /// The line as a motif.
    pub open spec fn motif(self) -> MotifView {
        MotifView {
            raw: self.key(),
            u_prefix: self.u_prefix,
            u: self.u,
            v_prefix: self.v_prefix,
            v: self.v,
            o: self.o,
            p: self.p,
        }
    }

    /// The line as the sketch needs it.
    pub open spec fn condensed(self) -> CMSView {
        CMSView { uv: self.uv, op: self.op, c: self.c }
    }
}

/// The position of the first digit of a node, or its length.
pub open spec fn first_digit(tok: Seq<char>) -> int {
    first_at(tok, |c: char| is_digit(c), 0)
}

/// A node: the prefix before its first digit, and the number written from
/// that digit to its end.
pub open spec fn node(tok: Seq<char>) -> Result<(Seq<char>, u32), ParseError> {
    let d = first_digit(tok);
    if d >= tok.len() {
        Err(ParseError::NoDigits)
    } else {
        match u32_of(tok.skip(d)) {
            Some(n) => Ok((tok.take(d), n)),
            None => Err(ParseError::ParseIntErr),
        }
    }
}

/// A node pair: two nodes around one colon.
pub open spec fn node_pair(tok: Seq<char>) -> Result<
    ((Seq<char>, u32), (Seq<char>, u32)),
    ParseError,
> {
    let uv = pieces(tok, ':');
    if uv.len() != 2 {
        Err(ParseError::NodePair)
    } else {
        match node(uv[0]) {
            Err(e) => Err(e),
            Ok(u) => match node(uv[1]) {
                Err(e) => Err(e),
                Ok(v) => Ok((u, v)),
            },
        }
    }
}

/// A connectivity flag: the one character `0` or `1`.
pub open spec fn connectivity(tok: Seq<char>) -> Result<u8, ParseError> {
    if tok == seq!['0'] {
        Ok(0u8)
    } else if tok == seq!['1'] {
        Ok(1u8)
    } else {
        Err(ParseError::Connectivity)
    }
}

/// An orbit pair: two numbers around one colon.
pub open spec fn orbit_pair(tok: Seq<char>) -> Result<(u32, u32), ParseError> {
    let op = pieces(tok, ':');
    if op.len() != 2 {
        Err(ParseError::OrbitPair)
    } else {
        match (u32_of(op[0]), u32_of(op[1])) {
            (Some(o), Some(p)) => Ok((o, p)),
            _ => Err(ParseError::ParseIntErr),
        }
    }
}

/// What a line that holds at least one character parses to. The fields are
/// read from left to right, and the first one that is missing or wrong
/// decides the error.
pub open spec fn record(line: Seq<char>) -> Result<Record, ParseError> {
    let t = tokens(line);
    if t.len() < 2 {
        Err(ParseError::MissingNodePair)
    } else {
        match node_pair(t[1]) {
            Err(e) => Err(e),
            Ok((u, v)) => if t.len() < 3 {
                Err(ParseError::MissingConnectivity)
            } else {
                match connectivity(t[2]) {
                    Err(e) => Err(e),
                    Ok(c) => if t.len() < 4 {
                        Err(ParseError::MissingOrbitPair)
                    } else {
                        match orbit_pair(t[3]) {
                            Err(e) => Err(e),
                            Ok((o, p)) => Ok(
                                Record {
                                    uv: t[1],
                                    u_prefix: u.0,
                                    u: u.1,
                                    v_prefix: v.0,
                                    v: v.1,
                                    c,
                                    op: t[3],
                                    o,
                                    p,
                                },
                            ),
                        }
                    },
                }
            },
        }
    }
}

/// What one read parses to: nothing at the end of the input, else the
/// record of the line.
pub open spec fn parse(input: Seq<char>) -> Result<Option<Record>, ParseError> {
    if input.len() == 0 {
        Ok(None)
    } else {
        match record(input) {
            Ok(r) => Ok(Some(r)),
            Err(e) => Err(e),
        }
    }
}

/// The key of a line is its two nodes and its two orbits as they are written,
/// with a colon between each two.
pub proof fn lemma_key_is_four_fields(line: Seq<char>)
    requires
        record(line) is Ok,
    ensures
        ({
            let t = tokens(line);
            let uv = pieces(t[1], ':');
            let op = pieces(t[3], ':');
            &&& uv.len() == 2
            &&& op.len() == 2
            &&& record(line)->Ok_0.key() == uv[0] + seq![':'] + uv[1] + seq![':'] + op[0] + seq![
                ':',
            ] + op[1]
        }),
{
    let t = tokens(line);
    lemma_two_pieces(t[1], ':');
    lemma_two_pieces(t[3], ':');
    let uv = pieces(t[1], ':');
    let op = pieces(t[3], ':');
    assert(t[1] + seq![':'] + t[3] =~= uv[0] + seq![':'] + uv[1] + seq![':'] + op[0] + seq![':']
        + op[1]);
}

/// The fields of a line, as stretches of the buffer that holds it.
struct Fields<'a> {
    uv: &'a [char],
    u_prefix: &'a [char],
    u: u32,
    v_prefix: &'a [char],
    v: u32,
    c: u8,
    op: &'a [char],
    o: u32,
    p: u32,
}

impl<'a> Fields<'a> {
    spec fn record(self) -> Record {
        Record {
            uv: self.uv@,
            u_prefix: self.u_prefix@,
            u: self.u,
            v_prefix: self.v_prefix@,
            v: self.v,
            c: self.c,
            op: self.op@,
            o: self.o,
            p: self.p,
        }
    }
}

/// Reads a connectivity flag.
fn parse_connectivity(tok: &[char]) -> (r: Result<u8, ParseError>)
    ensures
        r == connectivity(tok@),
{
    if tok.len() == 1 && tok[0] == '0' {
        assert(tok@ =~= seq!['0']);
        Ok(0)
    } else if tok.len() == 1 && tok[0] == '1' {
        assert(tok@ =~= seq!['1']);
        Ok(1)
    } else {
        Err(ParseError::Connectivity)
    }
}

/// Reads an orbit pair.
fn parse_orbit_pair(tok: &[char]) -> (r: Result<(u32, u32), ParseError>)
    ensures
        r == orbit_pair(tok@),
{
    match split_pair(tok, ':') {
        None => Err(ParseError::OrbitPair),
        Some((o_str, p_str)) => {
            match parse_u32(o_str) {
                None => Err(ParseError::ParseIntErr),
                Some(o) => match parse_u32(p_str) {
                    None => Err(ParseError::ParseIntErr),
                    Some(p) => Ok((o, p)),
                },
            }
        },
    }
}

/// Reads the fields of a line.
fn scan<'a>(line: &'a [char]) -> (r: Result<Fields<'a>, ParseError>)
    ensures
        match r {
            Ok(f) => record(line@) == Ok::<Record, ParseError>(f.record()),
            Err(e) => record(line@) == Err::<Record, ParseError>(e),
        },
{
    let ghost s = line@;
    let ghost t = tokens(s);
    proof {
        lemma_tokens_step(s, 0);
    }
    let e0 = match next_token(line, 0) {
        None => {
            return Err(ParseError::MissingNodePair);
        },
        Some((_, end)) => end,
    };
    proof {
        lemma_tokens_step(s, e0 as int);
    }
    let (uv, e1) = match next_token(line, e0) {
        None => {
            return Err(ParseError::MissingNodePair);
        },
        Some(found) => found,
    };
    assert(t.len() >= 2 && t[1] == uv@);
    let (u_node, v_node) = match split_pair(uv, ':') {
        None => {
            return Err(ParseError::NodePair);
        },
        Some(found) => found,
    };
    let (u_prefix, u) = match Parser::parse_node(u_node) {
        Err(e) => {
            return Err(e);
        },
        Ok(found) => found,
    };
    let (v_prefix, v) = match Parser::parse_node(v_node) {
        Err(e) => {
            return Err(e);
        },
        Ok(found) => found,
    };
    proof {
        lemma_tokens_step(s, e1 as int);
    }
    let (c_tok, e2) = match next_token(line, e1) {
        None => {
            return Err(ParseError::MissingConnectivity);
        },
        Some(found) => found,
    };
    assert(t.len() >= 3 && t[2] == c_tok@);
    let c = match parse_connectivity(c_tok) {
        Err(e) => {
            return Err(e);
        },
        Ok(c) => c,
    };
    proof {
        lemma_tokens_step(s, e2 as int);
    }
    let (op, e3) = match next_token(line, e2) {
        None => {
            return Err(ParseError::MissingOrbitPair);
        },
        Some(found) => found,
    };
    assert(t.len() >= 4 && t[3] == op@);
    let (o, p) = match parse_orbit_pair(op) {
        Err(e) => {
            return Err(e);
        },
        Ok(found) => found,
    };
    Ok(Fields { uv, u_prefix, u, v_prefix, v, c, op, o, p })
}

/// A parser of motif lines. It keeps the characters of the line it was last
/// given, in a buffer that the next call uses again.
pub struct Parser {
    line: Vec<char>,
}

impl View for Parser {
    type V = Seq<char>;

    /// The line that the parser was last given.
    closed spec fn view(&self) -> Seq<char> {
        self.line@
    }
}

impl Default for Parser {
    fn default() -> (r: Self)
        ensures
            r@ == Seq::<char>::empty(),
    {
        Parser::new()
    }
}

impl Parser {
    /// A parser that was given no line yet.
    pub fn new() -> (r: Self)
        ensures
            r@ == Seq::<char>::empty(),
    {
        Self { line: Vec::new() }
    }

    /// Parses one line of the form `P u:v c o:p q:r x:y` to a motif: the
    /// nodes with their prefixes and numbers, the orbits, and the key.
    ///
    /// `input` is what one read gave: `Ok(None)` where it holds no character,
    /// which is the end of the input; else the motif, or what is wrong with
    /// the line.
    pub fn parse_motif(&mut self, input: &str) -> (r: Result<Option<MotifInfo>, ParseError>)
        ensures
            final(self)@ == input@,
            match r {
                Ok(Some(m)) => parse(input@) matches Ok(Some(rec)) && m@ == rec.motif(),
                Ok(None) => parse(input@) == Ok::<Option<Record>, ParseError>(None),
                Err(e) => parse(input@) == Err::<Option<Record>, ParseError>(e),
            },
    {
        fill(&mut self.line, input);
        if self.line.len() == 0 {
            return Ok(None);
        }
        match scan(self.line.as_slice()) {
            Err(e) => Err(e),
            Ok(f) => {
                let mut raw = string_of(f.uv);
                raw.push(':');
                push_all(&mut raw, f.op);
                assert(raw@ =~= f.record().key());
                Ok(
                    Some(
                        MotifInfo {
                            raw,
                            u_prefix: string_of(f.u_prefix),
                            u: f.u,
                            v_prefix: string_of(f.v_prefix),
                            v: f.v,
                            o: f.o,
                            p: f.p,
                        },
                    ),
                )
            },
        }
    }

    /// Parses one line of the form `P u:v c o:p q:r x:y` to the key under
    /// which it is counted, `u:v:o:p`.
    ///
    /// `input` is what one read gave: `Ok(None)` where it holds no character,
    /// which is the end of the input; else the key, or what is wrong with the
    /// line.
    pub fn parse_raw(&mut self, input: &str) -> (r: Result<Option<String>, ParseError>)
        ensures
            final(self)@ == input@,
            match r {
                Ok(Some(key)) => parse(input@) matches Ok(Some(rec)) && key@ == rec.key(),
                Ok(None) => parse(input@) == Ok::<Option<Record>, ParseError>(None),
                Err(e) => parse(input@) == Err::<Option<Record>, ParseError>(e),
            },
    {
        fill(&mut self.line, input);
        if self.line.len() == 0 {
            return Ok(None);
        }
        match scan(self.line.as_slice()) {
            Err(e) => Err(e),
            Ok(f) => {
                let mut raw = string_of(f.uv);
                raw.push(':');
                push_all(&mut raw, f.op);
                assert(raw@ =~= f.record().key());
                Ok(Some(raw))
            },
        }
    }

    /// Parses one line of the form `P u:v c o:p q:r x:y` to what the sketch
    /// needs of it: the node pair and the orbit pair as written, and the
    /// connectivity flag.
    ///
    /// `input` is what one read gave: `Ok(None)` where it holds no character,
    /// which is the end of the input; else the three fields, or what is wrong
    /// with the line.
    pub fn parse_cms(&mut self, input: &str) -> (r: Result<Option<CMSInfo>, ParseError>)
        ensures
            final(self)@ == input@,
            match r {
                Ok(Some(info)) => parse(input@) matches Ok(Some(rec)) && info@ == rec.condensed(),
                Ok(None) => parse(input@) == Ok::<Option<Record>, ParseError>(None),
                Err(e) => parse(input@) == Err::<Option<Record>, ParseError>(e),
            },
    {
        fill(&mut self.line, input);
        if self.line.len() == 0 {
            return Ok(None);
        }
        match scan(self.line.as_slice()) {
            Err(e) => Err(e),
            Ok(f) => Ok(Some(CMSInfo { uv: string_of(f.uv), op: string_of(f.op), c: f.c })),
        }
    }

    /// Splits a node at its first digit, into the prefix before it and the
    /// number that is written from it on.
    pub fn parse_node<'a>(tok: &'a [char]) -> (r: Result<(&'a [char], u32), ParseError>)
        ensures
            match r {
                Ok((prefix, n)) => node(tok@) == Ok::<(Seq<char>, u32), ParseError>((prefix@, n)),
                Err(e) => node(tok@) == Err::<(Seq<char>, u32), ParseError>(e),
            },
    {
        let n = tok.len();
        let mut d: usize = 0;
        while d < n && !('0' <= tok[d] && tok[d] <= '9')
            invariant
                d <= n,
                n == tok@.len(),
                first_digit(tok@) == first_at(tok@, |c: char| is_digit(c), d as int),
            decreases n - d,
        {
            d += 1;
        }
        if d >= n {
            return Err(ParseError::NoDigits);
        }
        match parse_u32(slice_subrange(tok, d, n)) {
            None => Err(ParseError::ParseIntErr),
            Some(id) => Ok((slice_subrange(tok, 0, d), id)),
        }
    }
}

/// Parses one line of the form `P u:v c o:p q:r x:y` to a motif, with a
/// buffer of its own.
///
/// `input` is what one read gave: `Ok(None)` where it holds no character,
/// which is the end of the input; else the motif, or what is wrong with the
/// line.
pub fn parse_motif(input: &str) -> (r: Result<Option<MotifInfo>, ParseError>)
    ensures
        match r {
            Ok(Some(m)) => parse(input@) matches Ok(Some(rec)) && m@ == rec.motif(),
            Ok(None) => parse(input@) == Ok::<Option<Record>, ParseError>(None),
            Err(e) => parse(input@) == Err::<Option<Record>, ParseError>(e),
        },
{
    let mut parser = Parser::new();
    parser.parse_motif(input)
}

} // verus!
