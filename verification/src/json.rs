//! JSON documents, read as far as an addon's metadata needs them: the
//! members of the top-level object, each with its text and the texts of its
//! children.
//!
//! A document is a JSON object or array with white space around it; a
//! string, a number or a literal alone is none. Its syntax is held to the
//! grammar in full and to any depth, by a machine that keeps the open
//! containers on a stack. What lies deeper than the children of a top-level
//! member is looked at and then forgotten.

use crate::bytestr::{bytes_eq, copy_bytes};
use crate::json_text::{
    byte_at, exponent_end, fraction_end, integer_end, lemma_digit_run, lemma_space_run, lex,
    next_token, number_end, space_run, string_body, string_unit, Lexed, Scan, Token, TokenView,
};
use vstd::prelude::*;

verus! {

/// A member of the top-level object, as a mathematical value.
pub struct MemberView {
    /// The member's key.
    pub name: Seq<u8>,
    /// The member's text where its value is a string, else the empty string.
    pub value: Seq<u8>,
    /// Where the member's value is an array or an object: one text for each
    /// of its values, in order, the empty string for a value that is no
    /// string.
    pub children: Seq<Seq<u8>>,
}

/// A member of the top-level object.
#[derive(Debug)]
pub struct Member {
    pub name: Vec<u8>,
    pub value: Vec<u8>,
    pub children: Vec<Vec<u8>>,
}

/// The byte strings that a vector of vectors holds.
pub open spec fn texts(v: Seq<Vec<u8>>) -> Seq<Seq<u8>> {
    Seq::new(v.len(), |i: int| v[i]@)
}

impl View for Member {
    type V = MemberView;

    open spec fn view(&self) -> MemberView {
        MemberView { name: self.name@, value: self.value@, children: texts(self.children@) }
    }
}

/// The members that a vector holds.
pub open spec fn member_views(v: Seq<Member>) -> Seq<MemberView> {
    Seq::new(v.len(), |i: int| v[i]@)
}

/// What the machine expects next.
#[derive(Clone, Copy, Debug)]
pub enum Phase {
    /// A value.
    Value,
    /// What may follow an opening bracket: a value or the end of an array, a
    /// key or the end of an object.
    First,
    /// A key.
    Key,
    /// The colon behind a key.
    Colon,
    /// What may follow a value inside a container: a comma or the end.
    Next,
    /// Nothing: the document's value is complete.
    Done,
}

/// The machine's state, as a mathematical value.
pub struct ParserView {
    /// The open containers, outermost first: true for an object.
    pub stack: Seq<bool>,
    pub phase: Phase,
    /// The key read last.
    pub key: Seq<u8>,
    /// The members of the top-level object found so far.
    pub members: Seq<MemberView>,
}

/// The state before the first token.
pub open spec fn start() -> ParserView {
    ParserView { stack: Seq::empty(), phase: Phase::Value, key: Seq::empty(), members: Seq::empty() }
}

/// The phase behind a complete value.
pub open spec fn after_value(stack: Seq<bool>) -> Phase {
    if stack.len() == 0 {
        Phase::Done
    } else {
        Phase::Next
    }
}

/// Whether a value may come next.
pub open spec fn expects_value(p: ParserView) -> bool {
    p.phase is Value || (p.phase is First && p.stack.len() > 0 && !p.stack.last())
}

/// Whether a string, a number or a literal may come next: where a value
/// may, but not as the document's own value.
pub open spec fn expects_plain_value(p: ParserView) -> bool {
    expects_value(p) && p.stack.len() > 0
}

/// Whether a key may come next.
pub open spec fn expects_key(p: ParserView) -> bool {
    (p.phase is First || p.phase is Key) && p.stack.len() > 0 && p.stack.last()
}

/// The members after a value with the text `text` has begun: directly inside
/// the top-level object it is a new member under the key read last; directly
/// inside a member it is one more child of the last member.
pub open spec fn record(p: ParserView, text: Seq<u8>) -> Seq<MemberView> {
    if p.stack.len() == 1 && p.stack[0] {
        p.members.push(MemberView { name: p.key, value: text, children: Seq::empty() })
    } else if p.stack.len() == 2 && p.stack[0] && p.members.len() > 0 {
        let last = p.members.last();
        p.members.drop_last().push(
            MemberView { name: last.name, value: last.value, children: last.children.push(text) },
        )
    } else {
        p.members
    }
}

/// The state after one more token, or `None` where the token may not stand
/// there.
pub open spec fn step(p: ParserView, t: TokenView) -> Option<ParserView> {
    match t {
        TokenView::Open(object) => if expects_value(p) {
            Some(
                ParserView {
                    stack: p.stack.push(object),
                    phase: Phase::First,
                    key: p.key,
                    members: record(p, Seq::empty()),
                },
            )
        } else {
            None
        },
        TokenView::Close(object) => if (p.phase is Next || p.phase is First) && p.stack.len() > 0
            && p.stack.last() == object {
            Some(
                ParserView {
                    stack: p.stack.drop_last(),
                    phase: after_value(p.stack.drop_last()),
                    key: p.key,
                    members: p.members,
                },
            )
        } else {
            None
        },
        TokenView::Colon => if p.phase is Colon {
            Some(ParserView { stack: p.stack, phase: Phase::Value, key: p.key, members: p.members })
        } else {
            None
        },
        TokenView::Comma => if p.phase is Next && p.stack.len() > 0 {
            Some(
                ParserView {
                    stack: p.stack,
                    phase: if p.stack.last() {
                        Phase::Key
                    } else {
                        Phase::Value
                    },
                    key: p.key,
                    members: p.members,
                },
            )
        } else {
            None
        },
        TokenView::Text(text) => if expects_plain_value(p) {
            Some(
                ParserView {
                    stack: p.stack,
                    phase: Phase::Next,
                    key: p.key,
                    members: record(p, text),
                },
            )
        } else if expects_key(p) {
            Some(ParserView { stack: p.stack, phase: Phase::Colon, key: text, members: p.members })
        } else {
            None
        },
        TokenView::Scalar => if expects_plain_value(p) {
            Some(
                ParserView {
                    stack: p.stack,
                    phase: Phase::Next,
                    key: p.key,
                    members: record(p, Seq::empty()),
                },
            )
        } else {
            None
        },
    }
}

/// The members found when the machine, in state `p`, reads `s` from `pos` to
/// the end; `None` where a token may not stand where it does, or the text
/// ends before the document's value is complete.
pub open spec fn run(s: Seq<u8>, pos: int, p: ParserView) -> Option<Seq<MemberView>>
    decreases s.len() - pos,
    via run_decreases
{
    match lex(s, pos) {
        Lexed::Bad => None,
        Lexed::End => if p.phase is Done {
            Some(p.members)
        } else {
            None
        },
        Lexed::Token(t, next) => match step(p, t) {
            None => None,
            Some(q) => run(s, next, q),
        },
    }
}

#[via_fn]
proof fn run_decreases(s: Seq<u8>, pos: int, p: ParserView) {
    lemma_lex_advances(s, pos);
}

/// The members of the top-level object of the document `s`; none where the
/// document is an array. `None` where `s` is no JSON document.
pub open spec fn document(s: Seq<u8>) -> Option<Seq<MemberView>> {
    run(s, 0, start())
}

/// The first member with the key `name`.
pub open spec fn child(members: Seq<MemberView>, name: Seq<u8>) -> Option<MemberView>
    decreases members.len(),
{
    if members.len() == 0 {
        None
    } else if members[0].name == name {
        Some(members[0])
    } else {
        child(members.drop_first(), name)
    }
}

/// The text of the first member with the key `name`, or `fallback` where no
/// member has that key.
pub open spec fn child_value(members: Seq<MemberView>, name: Seq<u8>, fallback: Seq<u8>) -> Seq<
    u8,
> {
    match child(members, name) {
        Some(m) => m.value,
        None => fallback,
    }
}

/// The children of the first member with the key `name`; none where no
/// member has that key.
pub open spec fn child_list(members: Seq<MemberView>, name: Seq<u8>) -> Seq<Seq<u8>> {
    match child(members, name) {
        Some(m) => m.children,
        None => Seq::empty(),
    }
}

/// A string ends behind where it starts, and inside the text.
pub proof fn lemma_string_body_end(s: Seq<u8>, pos: int)
    requires
        0 <= pos,
    ensures
        string_body(s, pos) matches Some((_, end)) ==> pos < end <= s.len(),
    decreases s.len() - pos,
{
    if byte_at(s, pos) != 0x22 {
        match string_unit(s, pos) {
            None => {},
            Some((unit, next)) => {
                lemma_string_body_end(s, next);
            },
        }
    }
}

/// A number ends behind where it starts, and inside the text.
pub proof fn lemma_number_end(s: Seq<u8>, pos: int)
    requires
        0 <= pos,
    ensures
        number_end(s, pos) matches Some(end) ==> pos < end <= s.len(),
{
    let start = if byte_at(s, pos) == 0x2d {
        pos + 1
    } else {
        pos
    };
    match integer_end(s, start) {
        None => {},
        Some(pos1) => {
            lemma_digit_run(s, start);
            match fraction_end(s, pos1) {
                None => {},
                Some(pos2) => {
                    if pos2 != pos1 {
                        lemma_digit_run(s, pos1 + 1);
                    }
                    match exponent_end(s, pos2) {
                        None => {},
                        Some(pos3) => {
                            if pos3 != pos2 {
                                if byte_at(s, pos2 + 1) == 0x2b || byte_at(s, pos2 + 1) == 0x2d {
                                    lemma_digit_run(s, pos2 + 2);
                                } else {
                                    lemma_digit_run(s, pos2 + 1);
                                }
                            }
                        },
                    }
                },
            }
        },
    }
}

/// A token ends behind where the lexer started, and inside the text.
pub proof fn lemma_lex_advances(s: Seq<u8>, pos: int)
    ensures
        lex(s, pos) matches Lexed::Token(_, next) ==> 0 <= pos < next <= s.len(),
{
    if 0 <= pos <= s.len() {
        lemma_space_run(s, pos);
        let p = pos + space_run(s, pos);
        lemma_string_body_end(s, p + 1);
        lemma_number_end(s, p);
    }
}

/// The machine.
pub struct Parser {
    pub stack: Vec<bool>,
    pub phase: Phase,
    pub key: Vec<u8>,
    pub members: Vec<Member>,
}

impl View for Parser {
    type V = ParserView;

    open spec fn view(&self) -> ParserView {
        ParserView {
            stack: self.stack@,
            phase: self.phase,
            key: self.key@,
            members: member_views(self.members@),
        }
    }
}

impl Parser {
    /// The machine before the first token.
    pub fn new() -> (r: Parser)
        ensures
            r@ == start(),
    {
        let r = Parser {
            stack: Vec::new(),
            phase: Phase::Value,
            key: Vec::new(),
            members: Vec::new(),
        };
        assert(r@.members =~= Seq::empty());
        r
    }

    /// Tells whether a value may come next.
    pub fn wants_value(&self) -> (r: bool)
        ensures
            r == expects_value(self@),
    {
        match self.phase {
            Phase::Value => true,
            Phase::First => self.stack.len() > 0 && !self.stack[self.stack.len() - 1],
            _ => false,
        }
    }

    /// Tells whether a string, a number or a literal may come next.
    pub fn wants_plain_value(&self) -> (r: bool)
        ensures
            r == expects_plain_value(self@),
    {
        self.stack.len() > 0 && self.wants_value()
    }

    /// Tells whether a key may come next.
    pub fn wants_key(&self) -> (r: bool)
        ensures
            r == expects_key(self@),
    {
        match self.phase {
            Phase::First => self.stack.len() > 0 && self.stack[self.stack.len() - 1],
            Phase::Key => self.stack.len() > 0 && self.stack[self.stack.len() - 1],
            _ => false,
        }
    }

    /// Notes a value with the text `text`.
    pub fn note(&mut self, text: Vec<u8>)
        ensures
            final(self)@.members == record(old(self)@, text@),
            final(self)@.stack == old(self)@.stack,
            final(self)@.key == old(self)@.key,
            final(self).phase == old(self).phase,
    {
        let ghost before = member_views(self.members@);
        if self.stack.len() == 1 && self.stack[0] {
            let member = Member {
                name: copy_bytes(self.key.as_slice()),
                value: text,
                children: Vec::new(),
            };
            assert(member@.children =~= Seq::empty());
            self.members.push(member);
            assert(member_views(self.members@) =~= before.push(member@));
        } else if self.stack.len() == 2 && self.stack[0] {
            match self.members.pop() {
                None => {
                    assert(member_views(self.members@) =~= before);
                },
                Some(last) => {
                    let ghost rest = member_views(self.members@);
                    assert(rest =~= before.drop_last());
                    assert(last@ == before.last());
                    let mut last = last;
                    let ghost children = texts(last.children@);
                    last.children.push(text);
                    assert(texts(last.children@) =~= children.push(text@));
                    self.members.push(last);
                    assert(member_views(self.members@) =~= rest.push(last@));
                },
            }
        }
    }

    /// Sets the phase behind a complete value.
    pub fn value_done(&mut self)
        ensures
            final(self)@ == (ParserView {
                phase: after_value(old(self)@.stack),
                ..old(self)@
            }),
    {
        if self.stack.len() == 0 {
            self.phase = Phase::Done;
        } else {
            self.phase = Phase::Next;
        }
    }

    /// Takes one more token. Where the token may not stand there, the result
    /// is false and the machine is of no further use.
    pub fn feed(&mut self, token: Token) -> (ok: bool)
        ensures
            match step(old(self)@, token@) {
                Some(q) => ok && final(self)@ == q,
                None => !ok,
            },
    {
        match token {
            Token::Open(object) => {
                if !self.wants_value() {
                    return false;
                }
                self.note(Vec::new());
                self.stack.push(object);
                self.phase = Phase::First;
                true
            },
            Token::Close(object) => {
                let fits = match self.phase {
                    Phase::Next => true,
                    Phase::First => true,
                    _ => false,
                };
                if !fits || self.stack.len() == 0 || self.stack[self.stack.len() - 1] != object {
                    return false;
                }
                self.stack.pop();
                assert(self.stack@ =~= old(self)@.stack.drop_last());
                self.value_done();
                true
            },
            Token::Colon => {
                match self.phase {
                    Phase::Colon => {
                        self.phase = Phase::Value;
                        true
                    },
                    _ => false,
                }
            },
            Token::Comma => {
                match self.phase {
                    Phase::Next => {
                        if self.stack.len() == 0 {
                            return false;
                        }
                        if self.stack[self.stack.len() - 1] {
                            self.phase = Phase::Key;
                        } else {
                            self.phase = Phase::Value;
                        }
                        true
                    },
                    _ => false,
                }
            },
            Token::Text(text) => {
                if self.wants_plain_value() {
                    self.note(text);
                    self.phase = Phase::Next;
                    true
                } else if self.wants_key() {
                    self.key = text;
                    self.phase = Phase::Colon;
                    true
                } else {
                    false
                }
            },
            Token::Scalar => {
                if !self.wants_plain_value() {
                    return false;
                }
                self.note(Vec::new());
                self.phase = Phase::Next;
                true
            },
        }
    }
}

/// Reads a JSON document.
pub fn import(text: &[u8]) -> (r: Option<Vec<Member>>)
    ensures
        match r {
            Some(members) => document(text@) == Some(member_views(members@)),
            None => document(text@).is_none(),
        },
{
    let mut parser = Parser::new();
    let mut pos: usize = 0;
    loop
        invariant
            pos <= text.len(),
            run(text@, pos as int, parser@) == document(text@),
        decreases text.len() - pos,
    {
        match next_token(text, pos) {
            Scan::Bad => {
                return None;
            },
            Scan::End => {
                return match parser.phase {
                    Phase::Done => Some(parser.members),
                    _ => None,
                };
            },
            Scan::Token(token, next) => {
                if !parser.feed(token) {
                    return None;
                }
                pos = next;
            },
        }
    }
}

/// Finds the first member with the key `name`.
pub fn get_child<'a>(members: &'a Vec<Member>, name: &[u8]) -> (r: Option<&'a Member>)
    ensures
        match r {
            Some(m) => child(member_views(members@), name@) == Some(m@),
            None => child(member_views(members@), name@).is_none(),
        },
{
    let ghost all = member_views(members@);
    let mut i: usize = 0;
    assert(all.subrange(0, all.len() as int) =~= all);
    while i < members.len()
        invariant
            i <= members.len(),
            all == member_views(members@),
            child(all, name@) == child(all.subrange(i as int, all.len() as int), name@),
        decreases members.len() - i,
    {
        let ghost rest = all.subrange(i as int, all.len() as int);
        assert(rest[0] == members@[i as int]@);
        if bytes_eq(members[i].name.as_slice(), name) {
            return Some(&members[i]);
        }
        assert(rest.drop_first() =~= all.subrange(i + 1, all.len() as int));
        i = i + 1;
    }
    assert(all.subrange(i as int, all.len() as int).len() == 0);
    None
}

/// The small hexadecimal digit for a value below 16.
pub open spec fn hex_char(n: int) -> u8 {
    if n < 10 {
        (0x30 + n) as u8
    } else {
        (0x61 + n - 10) as u8
    }
}

/// How a byte stands inside a string: quote and backslash behind a
/// backslash; backspace, form feed, line feed, carriage return and tab
/// by their letters; other control bytes as `\u00XX`; every other byte as
/// itself.
pub open spec fn escaped_byte(b: u8) -> Seq<u8> {
    if b == 0x22 || b == 0x5c {
        seq![0x5cu8, b]
    } else if b == 0x08 {
        seq![0x5cu8, 0x62u8]
    } else if b == 0x0c {
        seq![0x5cu8, 0x66u8]
    } else if b == 0x0a {
        seq![0x5cu8, 0x6eu8]
    } else if b == 0x0d {
        seq![0x5cu8, 0x72u8]
    } else if b == 0x09 {
        seq![0x5cu8, 0x74u8]
    } else if b < 0x20 {
        seq![0x5cu8, 0x75u8, 0x30u8, 0x30u8, hex_char(b as int / 16), hex_char(b as int % 16)]
    } else {
        seq![b]
    }
}

/// How a text stands inside a string.
pub open spec fn escaped(text: Seq<u8>) -> Seq<u8>
    decreases text.len(),
{
    if text.len() == 0 {
        Seq::empty()
    } else {
        escaped(text.drop_last()) + escaped_byte(text.last())
    }
}

/// A text as a JSON string, between quotes.
pub open spec fn quoted(text: Seq<u8>) -> Seq<u8> {
    seq![0x22u8] + escaped(text) + seq![0x22u8]
}

/// Appends a byte as it stands inside a string.
pub fn write_escaped_byte(out: &mut Vec<u8>, b: u8)
    ensures
        final(out)@ == old(out)@ + escaped_byte(b),
{
    let ghost before = out@;
    if b == 0x22 || b == 0x5c {
        out.push(0x5c);
        out.push(b);
    } else if b == 0x08 {
        out.push(0x5c);
        out.push(0x62);
    } else if b == 0x0c {
        out.push(0x5c);
        out.push(0x66);
    } else if b == 0x0a {
        out.push(0x5c);
        out.push(0x6e);
    } else if b == 0x0d {
        out.push(0x5c);
        out.push(0x72);
    } else if b == 0x09 {
        out.push(0x5c);
        out.push(0x74);
    } else if b < 0x20 {
        let high = b / 16;
        let low = b % 16;
        out.push(0x5c);
        out.push(0x75);
        out.push(0x30);
        out.push(0x30);
        out.push(0x30 + high);
        out.push(
            if low < 10 {
                0x30 + low
            } else {
                0x61 + low - 10
            },
        );
    } else {
        out.push(b);
    }
    assert(out@ =~= before + escaped_byte(b));
}

/// Appends a text as a JSON string.
pub fn write_quoted(out: &mut Vec<u8>, text: &[u8])
    ensures
        final(out)@ == old(out)@ + quoted(text@),
{
    let ghost before = out@;
    out.push(0x22);
    let mut i: usize = 0;
    while i < text.len()
        invariant
            i <= text.len(),
            out@ == before + seq![0x22u8] + escaped(text@.subrange(0, i as int)),
        decreases text.len() - i,
    {
        let ghost prefix = text@.subrange(0, i as int);
        let ghost so_far = out@;
        write_escaped_byte(out, text[i]);
        i = i + 1;
        proof {
            let next = text@.subrange(0, i as int);
            assert(next.drop_last() =~= prefix);
            assert(out@ =~= before + seq![0x22u8] + escaped(next));
        }
    }
    assert(text@.subrange(0, i as int) =~= text@);
    out.push(0x22);
    assert(out@ =~= before + quoted(text@));
}

} // verus!
