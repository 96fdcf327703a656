//! The description field carries a description, a type and tags, and gives
//! the description and the tags back, whatever bytes they hold.

use crate::addon_json::{carried_tags, description_json, plain_description, tag_list};
use crate::json::{
    child, document, escaped, escaped_byte, hex_char, quoted, record, run, start, step, MemberView,
    ParserView, Phase,
};
use crate::json_text::{
    byte_at, hex4, hex_value, lex, space_run, string_body, string_unit, unicode_escape, utf8, Lexed,
    TokenView,
};
use crate::wire::{holds_at, lemma_holds_byte, lemma_holds_parts, lemma_holds_within, no_nul};
use vstd::prelude::*;
use vstd::string::StringSliceAdditionalSpecFns;

verus! {

/// The escaped form of a text is that of its first byte, then that of the
/// rest.
pub proof fn lemma_escaped_front(text: Seq<u8>)
    requires
        text.len() > 0,
    ensures
        escaped(text) == escaped_byte(text[0]) + escaped(text.drop_first()),
    decreases text.len(),
{
    if text.len() == 1 {
        assert(text.drop_last() =~= Seq::<u8>::empty());
        assert(text.drop_first() =~= Seq::<u8>::empty());
        assert(escaped(text.drop_last()) =~= Seq::<u8>::empty());
        assert(escaped(text) =~= escaped_byte(text[0]) + escaped(text.drop_first()));
    } else {
        lemma_escaped_front(text.drop_last());
        assert(text.drop_last().drop_first() =~= text.drop_first().drop_last());
        assert(text.drop_last()[0] == text[0]);
        assert(text.drop_first().last() == text.last());
        assert(escaped(text) =~= escaped_byte(text[0]) + escaped(text.drop_first()));
    }
}

/// The escaped form of a byte holds printable ASCII and bytes from `0x80`
/// on, and begins with no quote.
pub proof fn lemma_escaped_byte_plain(b: u8)
    ensures
        escaped_byte(b).len() >= 1,
        escaped_byte(b)[0] != 0x22,
        forall|i: int| 0 <= i < escaped_byte(b).len() ==> #[trigger] escaped_byte(b)[i] >= 0x20,
{
}

/// The escaped form of a text holds no byte below `0x20`.
pub proof fn lemma_escaped_plain(text: Seq<u8>)
    ensures
        forall|i: int| 0 <= i < escaped(text).len() ==> #[trigger] escaped(text)[i] >= 0x20,
    decreases text.len(),
{
    if text.len() > 0 {
        lemma_escaped_plain(text.drop_last());
        lemma_escaped_byte_plain(text.last());
        let head = escaped(text.drop_last());
        let tail = escaped_byte(text.last());
        assert forall|i: int| 0 <= i < escaped(text).len() implies #[trigger] escaped(text)[i]
            >= 0x20 by {
            if i < head.len() {
                assert(escaped(text)[i] == head[i]);
            } else {
                assert(escaped(text)[i] == tail[i - head.len()]);
            }
        }
    }
}

/// Reading the escaped form of a byte gives the byte.
pub proof fn lemma_unit_of_escaped(s: Seq<u8>, pos: int, b: u8)
    requires
        holds_at(s, pos, escaped_byte(b)),
    ensures
        string_unit(s, pos) == Some((seq![b], pos + escaped_byte(b).len())),
        byte_at(s, pos) != 0x22,
{
    let e = escaped_byte(b);
    let part = s.subrange(pos, pos + e.len());
    assert(part == e);
    assert(s[pos] == part[0]);
    if e.len() >= 2 {
        assert(s[pos + 1] == part[1]);
    }
    if e.len() == 6 {
        assert(s[pos + 2] == part[2] && s[pos + 3] == part[3] && s[pos + 4] == part[4] && s[pos
            + 5] == part[5]);
        let high = b as int / 16;
        let low = b as int % 16;
        assert(hex_value(hex_char(high) as int) == high);
        assert(hex_value(hex_char(low) as int) == low);
        assert(hex4(s, pos + 2) == Some(b as int));
        assert(utf8(b as int) =~= seq![b]);
        assert(unicode_escape(s, pos) == Some((seq![b], pos + 6)));
    }
}

/// Reading a string where the escaped form of a text stands, with a quote
/// behind it, gives the text.
pub proof fn lemma_read_string(s: Seq<u8>, pos: int, text: Seq<u8>)
    requires
        holds_at(s, pos, escaped(text) + seq![0x22u8]),
    ensures
        string_body(s, pos) == Some((text, pos + escaped(text).len() + 1)),
    decreases text.len(),
{
    let quote = seq![0x22u8];
    if text.len() == 0 {
        assert(escaped(text) + quote =~= quote);
        assert(s[pos] == s.subrange(pos, pos + 1)[0]);
    } else {
        let first = escaped_byte(text[0]);
        let rest = text.drop_first();
        lemma_escaped_front(text);
        assert(escaped(text) + quote =~= first + (escaped(rest) + quote));
        lemma_holds_parts(s, pos, first, escaped(rest) + quote);
        lemma_unit_of_escaped(s, pos, text[0]);
        lemma_read_string(s, pos + first.len(), rest);
        assert(seq![text[0]] + rest =~= text);
    }
}

/// The lexer reads a quoted text as a string with that text.
pub proof fn lemma_lex_quoted(s: Seq<u8>, pos: int, text: Seq<u8>)
    requires
        holds_at(s, pos, quoted(text)),
    ensures
        lex(s, pos) == Lexed::Token(TokenView::Text(text), pos + quoted(text).len()),
        quoted(text).len() == escaped(text).len() + 2,
{
    let quote = seq![0x22u8];
    assert(quoted(text) =~= quote + (escaped(text) + quote));
    lemma_holds_parts(s, pos, quote, escaped(text) + quote);
    assert(s[pos] == s.subrange(pos, pos + 1)[0]);
    assert(space_run(s, pos) == 0);
    lemma_read_string(s, pos + 1, text);
}

/// Whether a byte is one of the six signs, and the token it makes.
pub open spec fn sign(b: u8) -> Option<TokenView> {
    if b == 0x7b {
        Some(TokenView::Open(true))
    } else if b == 0x7d {
        Some(TokenView::Close(true))
    } else if b == 0x5b {
        Some(TokenView::Open(false))
    } else if b == 0x5d {
        Some(TokenView::Close(false))
    } else if b == 0x3a {
        Some(TokenView::Colon)
    } else if b == 0x2c {
        Some(TokenView::Comma)
    } else {
        None
    }
}

/// The machine reads a sign as its token.
pub proof fn lemma_run_sign(s: Seq<u8>, pos: int, p: ParserView, b: u8, q: ParserView)
    requires
        0 <= pos < s.len(),
        s[pos] == b,
        sign(b) matches Some(t) && step(p, t) == Some(q),
    ensures
        run(s, pos, p) == run(s, pos + 1, q),
{
    assert(space_run(s, pos) == 0);
    assert(lex(s, pos) == Lexed::Token(sign(b).unwrap(), pos + 1));
}

/// The machine reads a quoted text as a string.
pub proof fn lemma_run_quoted(s: Seq<u8>, pos: int, p: ParserView, text: Seq<u8>, q: ParserView)
    requires
        holds_at(s, pos, quoted(text)),
        step(p, TokenView::Text(text)) == Some(q),
    ensures
        run(s, pos, p) == run(s, pos + quoted(text).len(), q),
{
    lemma_lex_quoted(s, pos, text);
}

/// The machine reads a key, a colon and a quoted text inside the top-level
/// object as one more member.
pub proof fn lemma_run_member(s: Seq<u8>, pos: int, p: ParserView, name: Seq<u8>, value: Seq<u8>)
    requires
        holds_at(s, pos, quoted(name)),
        holds_at(s, pos + quoted(name).len(), seq![0x3au8]),
        holds_at(s, pos + quoted(name).len() + 1, quoted(value)),
        p.stack == seq![true],
        p.phase is First || p.phase is Key,
    ensures
        run(s, pos, p) == run(
            s,
            pos + quoted(name).len() + 1 + quoted(value).len(),
            ParserView {
                stack: p.stack,
                phase: Phase::Next,
                key: name,
                members: p.members.push(MemberView { name, value, children: Seq::empty() }),
            },
        ),
{
    let colon_at: int = pos + quoted(name).len();
    let q1 = ParserView { stack: p.stack, phase: Phase::Colon, key: name, members: p.members };
    lemma_run_quoted(s, pos, p, name, q1);
    let q2 = ParserView { stack: p.stack, phase: Phase::Value, key: name, members: p.members };
    lemma_holds_byte(s, colon_at, seq![0x3au8], 0);
    lemma_run_sign(s, colon_at, q1, 0x3a, q2);
    let q3 = ParserView {
        stack: p.stack,
        phase: Phase::Next,
        key: name,
        members: p.members.push(MemberView { name, value, children: Seq::empty() }),
    };
    lemma_run_quoted(s, colon_at + 1, q2, value, q3);
}

/// The machine's state inside the array of tags, after `k` of them.
pub open spec fn among_tags(before: Seq<MemberView>, name: Seq<u8>, tags: Seq<Seq<u8>>, k: nat) -> ParserView {
    ParserView {
        stack: seq![true, false],
        phase: if k == 0 {
            Phase::First
        } else {
            Phase::Next
        },
        key: name,
        members: before.push(
            MemberView { name, value: Seq::empty(), children: tags.subrange(0, k as int) },
        ),
    }
}

/// The machine reads a key, a colon and an opening bracket inside the
/// top-level object as one more member, still without children.
pub proof fn lemma_run_list_start(
    s: Seq<u8>,
    pos: int,
    p: ParserView,
    name: Seq<u8>,
    tags: Seq<Seq<u8>>,
)
    requires
        holds_at(s, pos, quoted(name)),
        holds_at(s, pos + quoted(name).len(), seq![0x3au8, 0x5bu8]),
        p.stack == seq![true],
        p.phase is First || p.phase is Key,
    ensures
        run(s, pos, p) == run(
            s,
            pos + quoted(name).len() + 2,
            among_tags(p.members, name, tags, 0),
        ),
{
    let colon_at: int = pos + quoted(name).len();
    let q1 = ParserView { stack: p.stack, phase: Phase::Colon, key: name, members: p.members };
    lemma_run_quoted(s, pos, p, name, q1);
    let q2 = ParserView { stack: p.stack, phase: Phase::Value, key: name, members: p.members };
    lemma_holds_byte(s, colon_at, seq![0x3au8, 0x5bu8], 0);
    lemma_holds_byte(s, colon_at, seq![0x3au8, 0x5bu8], 1);
    lemma_run_sign(s, colon_at, q1, 0x3a, q2);
    let q3 = among_tags(p.members, name, tags, 0);
    assert(q2.stack.push(false) =~= seq![true, false]);
    assert(tags.subrange(0, 0) =~= Seq::<Seq<u8>>::empty());
    assert(record(q2, Seq::empty()) == q3.members);
    lemma_run_sign(s, colon_at + 1, q2, 0x5b, q3);
}

/// The list of the first `n` tags begins with the list of the first `k`, and
/// behind that stands the next tag, with a comma before it unless it is the
/// first.
pub proof fn lemma_tag_in_list(tags: Seq<Seq<u8>>, k: nat, n: nat)
    requires
        k < n <= tags.len(),
    ensures
        holds_at(
            tag_list(tags, n),
            tag_list(tags, k).len() as int,
            tag_list(tags, (k + 1) as nat).subrange(
                tag_list(tags, k).len() as int,
                tag_list(tags, (k + 1) as nat).len() as int,
            ),
        ),
        tag_list(tags, k).len() <= tag_list(tags, (k + 1) as nat).len() <= tag_list(tags, n).len(),
    decreases n - k,
{
    let whole = tag_list(tags, n);
    let head = tag_list(tags, k);
    let longer = tag_list(tags, (k + 1) as nat);
    if n == k + 1 {
    } else {
        lemma_tag_in_list(tags, k, (n - 1) as nat);
        let shorter = tag_list(tags, (n - 1) as nat);
        assert(whole == shorter + seq![0x2cu8] + quoted(tags[n - 1]));
        assert(whole.subrange(head.len() as int, longer.len() as int) =~= shorter.subrange(
            head.len() as int,
            longer.len() as int,
        ));
    }
}

/// The machine reads one more tag as one more child.
pub proof fn lemma_run_tag(
    s: Seq<u8>,
    pos: int,
    before: Seq<MemberView>,
    name: Seq<u8>,
    tags: Seq<Seq<u8>>,
    k: nat,
)
    requires
        k < tags.len(),
        holds_at(
            s,
            pos,
            tag_list(tags, (k + 1) as nat).subrange(
                tag_list(tags, k).len() as int,
                tag_list(tags, (k + 1) as nat).len() as int,
            ),
        ),
    ensures
        run(s, pos, among_tags(before, name, tags, k)) == run(
            s,
            pos + tag_list(tags, (k + 1) as nat).len() - tag_list(tags, k).len(),
            among_tags(before, name, tags, (k + 1) as nat),
        ),
{
    let p = among_tags(before, name, tags, k);
    let q = among_tags(before, name, tags, (k + 1) as nat);
    let tag = tags[k as int];
    let head = tag_list(tags, k);
    let longer = tag_list(tags, (k + 1) as nat);
    let item = longer.subrange(head.len() as int, longer.len() as int);
    assert(p.members.drop_last() =~= before);
    assert(tags.subrange(0, k as int).push(tag) =~= tags.subrange(0, (k + 1) as int));
    assert(record(p, tag) == q.members);
    if k == 0 {
        assert(item =~= quoted(tag));
        lemma_run_quoted(s, pos, p, tag, q);
    } else {
        let comma = seq![0x2cu8];
        assert(longer == head + comma + quoted(tag));
        assert(item =~= comma + quoted(tag));
        lemma_holds_parts(s, pos, comma, quoted(tag));
        lemma_holds_byte(s, pos, comma, 0);
        let mid = ParserView { stack: p.stack, phase: Phase::Value, key: p.key, members: p.members };
        lemma_run_sign(s, pos, p, 0x2c, mid);
        assert(record(mid, tag) == q.members);
        lemma_run_quoted(s, pos + 1, mid, tag, q);
    }
}

/// The machine reads the tags from the `k`-th on as further children.
pub proof fn lemma_run_tags(
    s: Seq<u8>,
    base: int,
    before: Seq<MemberView>,
    name: Seq<u8>,
    tags: Seq<Seq<u8>>,
    k: nat,
)
    requires
        holds_at(s, base, tag_list(tags, tags.len())),
        k <= tags.len(),
    ensures
        run(s, base + tag_list(tags, k).len(), among_tags(before, name, tags, k)) == run(
            s,
            base + tag_list(tags, tags.len()).len(),
            among_tags(before, name, tags, tags.len()),
        ),
    decreases tags.len() - k,
{
    let n = tags.len();
    if k < n {
        let head = tag_list(tags, k);
        let longer = tag_list(tags, (k + 1) as nat);
        lemma_tag_in_list(tags, k, n);
        lemma_holds_within(
            s,
            base,
            tag_list(tags, n),
            head.len() as int,
            longer.subrange(head.len() as int, longer.len() as int),
        );
        lemma_run_tag(s, base + head.len(), before, name, tags, k);
        lemma_run_tags(s, base, before, name, tags, (k + 1) as nat);
    }
}

/// The machine reads the two closing brackets at the end of the text, and
/// the document is complete.
pub proof fn lemma_run_end(s: Seq<u8>, pos: int, p: ParserView)
    requires
        holds_at(s, pos, seq![0x5du8, 0x7du8]),
        s.len() == pos + 2,
        p.stack == seq![true, false],
        p.phase is First || p.phase is Next,
    ensures
        run(s, pos, p) == Some(p.members),
{
    lemma_holds_byte(s, pos, seq![0x5du8, 0x7du8], 0);
    lemma_holds_byte(s, pos, seq![0x5du8, 0x7du8], 1);
    let q1 = ParserView { stack: seq![true], phase: Phase::Next, key: p.key, members: p.members };
    assert(p.stack.drop_last() =~= seq![true]);
    lemma_run_sign(s, pos, p, 0x5d, q1);
    let q2 = ParserView {
        stack: Seq::empty(),
        phase: Phase::Done,
        key: p.key,
        members: p.members,
    };
    assert(q1.stack.drop_last() =~= Seq::<bool>::empty());
    lemma_run_sign(s, pos + 1, q1, 0x7d, q2);
    assert(space_run(s, pos + 2) == 0);
    assert(lex(s, pos + 2) == Lexed::End);
}

/// The three keys are three different texts.
pub proof fn lemma_keys_differ()
    ensures
        "description".spec_bytes() != "type".spec_bytes(),
        "description".spec_bytes() != "tags".spec_bytes(),
        "type".spec_bytes() != "tags".spec_bytes(),
{
    reveal_strlit("description");
    reveal_strlit("type");
    reveal_strlit("tags");
    let a = "description";
    let b = "type";
    let c = "tags";
    assert(vstd::string::is_ascii(a)) by {
        assert forall|i: int| 0 <= i < a@.len() implies (a@[i] as u32) < 128 by {}
    }
    assert(vstd::string::is_ascii(b)) by {
        assert forall|i: int| 0 <= i < b@.len() implies (b@[i] as u32) < 128 by {}
    }
    assert(vstd::string::is_ascii(c)) by {
        assert forall|i: int| 0 <= i < c@.len() implies (c@[i] as u32) < 128 by {}
    }
    vstd::string::is_ascii_spec_bytes(a);
    vstd::string::is_ascii_spec_bytes(b);
    vstd::string::is_ascii_spec_bytes(c);
    assert(a.spec_bytes().len() == 11 && b.spec_bytes().len() == 4);
    assert(b.spec_bytes()[1] == 0x79 && c.spec_bytes()[1] == 0x61);
}

/// The members that the description field of an addon holds.
pub open spec fn written_members(description: Seq<u8>, addon_type: Seq<u8>, tags: Seq<Seq<u8>>) -> Seq<
    MemberView,
> {
    seq![
        MemberView {
            name: "description".spec_bytes(),
            value: description,
            children: Seq::empty(),
        },
        MemberView { name: "type".spec_bytes(), value: addon_type, children: Seq::empty() },
        MemberView { name: "tags".spec_bytes(), value: Seq::empty(), children: tags },
    ]
}

/// The written description field up to and including the bracket that
/// opens the array of tags.
pub open spec fn front_bytes(description: Seq<u8>, addon_type: Seq<u8>) -> Seq<u8> {
    seq![0x7bu8] + quoted("description".spec_bytes()) + seq![0x3au8] + quoted(description) + seq![
        0x2cu8,
    ] + quoted("type".spec_bytes()) + seq![0x3au8] + quoted(addon_type) + seq![0x2cu8] + quoted(
        "tags".spec_bytes(),
    ) + seq![0x3au8, 0x5bu8]
}

/// The two members that stand before the tags.
pub open spec fn front_members(description: Seq<u8>, addon_type: Seq<u8>) -> Seq<MemberView> {
    seq![
        MemberView {
            name: "description".spec_bytes(),
            value: description,
            children: Seq::empty(),
        },
        MemberView { name: "type".spec_bytes(), value: addon_type, children: Seq::empty() },
    ]
}

/// Where the parts of the front stand in a text that begins with it: the
/// brace at the start, then the first member, a comma, the second member,
/// a comma, the third key, and the colon and the bracket.
pub proof fn lemma_front_parts(s: Seq<u8>, description: Seq<u8>, addon_type: Seq<u8>)
    requires
        holds_at(s, 0, front_bytes(description, addon_type)),
    ensures
        ({
            let key1 = quoted("description".spec_bytes());
            let key2 = quoted("type".spec_bytes());
            let key3 = quoted("tags".spec_bytes());
            let text1 = quoted(description);
            let text2 = quoted(addon_type);
            let second: int = 3int + key1.len() + text1.len();
            let third: int = second + 2 + key2.len() + text2.len();
            &&& holds_at(s, 0, seq![0x7bu8])
            &&& holds_at(s, 1, key1)
            &&& holds_at(s, 1int + key1.len(), seq![0x3au8])
            &&& holds_at(s, 2int + key1.len(), text1)
            &&& holds_at(s, second - 1, seq![0x2cu8])
            &&& holds_at(s, second, key2)
            &&& holds_at(s, second + key2.len(), seq![0x3au8])
            &&& holds_at(s, second + key2.len() + 1, text2)
            &&& holds_at(s, third - 1, seq![0x2cu8])
            &&& holds_at(s, third, key3)
            &&& holds_at(s, third + key3.len(), seq![0x3au8, 0x5bu8])
            &&& front_bytes(description, addon_type).len() == third + key3.len() + 2
        }),
{
    let x0 = seq![0x7bu8];
    let x1 = quoted("description".spec_bytes());
    let x2 = seq![0x3au8];
    let x3 = quoted(description);
    let x4 = seq![0x2cu8];
    let x5 = quoted("type".spec_bytes());
    let x7 = quoted(addon_type);
    let x9 = quoted("tags".spec_bytes());
    let x10 = seq![0x3au8, 0x5bu8];
    lemma_holds_parts(s, 0, x0 + x1 + x2 + x3 + x4 + x5 + x2 + x7 + x4 + x9, x10);
    lemma_holds_parts(s, 0, x0 + x1 + x2 + x3 + x4 + x5 + x2 + x7 + x4, x9);
    lemma_holds_parts(s, 0, x0 + x1 + x2 + x3 + x4 + x5 + x2 + x7, x4);
    lemma_holds_parts(s, 0, x0 + x1 + x2 + x3 + x4 + x5 + x2, x7);
    lemma_holds_parts(s, 0, x0 + x1 + x2 + x3 + x4 + x5, x2);
    lemma_holds_parts(s, 0, x0 + x1 + x2 + x3 + x4, x5);
    lemma_holds_parts(s, 0, x0 + x1 + x2 + x3, x4);
    lemma_holds_parts(s, 0, x0 + x1 + x2, x3);
    lemma_holds_parts(s, 0, x0 + x1, x2);
    lemma_holds_parts(s, 0, x0, x1);
}

/// The machine reads the written description field up to the array of tags.
pub proof fn lemma_run_front(
    s: Seq<u8>,
    description: Seq<u8>,
    addon_type: Seq<u8>,
    tags: Seq<Seq<u8>>,
)
    requires
        holds_at(s, 0, front_bytes(description, addon_type)),
    ensures
        run(s, 0, start()) == run(
            s,
            front_bytes(description, addon_type).len() as int,
            among_tags(front_members(description, addon_type), "tags".spec_bytes(), tags, 0),
        ),
{
    let k1 = "description".spec_bytes();
    let k2 = "type".spec_bytes();
    let k3 = "tags".spec_bytes();
    lemma_front_parts(s, description, addon_type);
    let second: int = 3int + quoted(k1).len() + quoted(description).len();
    let third: int = second + 2 + quoted(k2).len() + quoted(addon_type).len();
    let state0 = start();
    let state1 = ParserView {
        stack: seq![true],
        phase: Phase::First,
        key: state0.key,
        members: state0.members,
    };
    assert(state0.stack.push(true) =~= seq![true]);
    lemma_holds_byte(s, 0, seq![0x7bu8], 0);
    lemma_run_sign(s, 0, state0, 0x7b, state1);
    lemma_run_member(s, 1, state1, k1, description);
    let member1 = MemberView { name: k1, value: description, children: Seq::empty() };
    let state2 = ParserView {
        stack: seq![true],
        phase: Phase::Next,
        key: k1,
        members: state1.members.push(member1),
    };
    let state3 = ParserView {
        stack: state2.stack,
        phase: Phase::Key,
        key: state2.key,
        members: state2.members,
    };
    lemma_holds_byte(s, second - 1, seq![0x2cu8], 0);
    lemma_run_sign(s, second - 1, state2, 0x2c, state3);
    lemma_run_member(s, second, state3, k2, addon_type);
    let member2 = MemberView { name: k2, value: addon_type, children: Seq::empty() };
    let state4 = ParserView {
        stack: seq![true],
        phase: Phase::Next,
        key: k2,
        members: state3.members.push(member2),
    };
    let state5 = ParserView {
        stack: state4.stack,
        phase: Phase::Key,
        key: state4.key,
        members: state4.members,
    };
    lemma_holds_byte(s, third - 1, seq![0x2cu8], 0);
    lemma_run_sign(s, third - 1, state4, 0x2c, state5);
    lemma_run_list_start(s, third, state5, k3, tags);
    assert(state5.members =~= front_members(description, addon_type));
}

/// The machine reads a text in which the front, the tags and the two
/// closing brackets stand one behind the other as the written members.
pub proof fn lemma_run_description(
    s: Seq<u8>,
    description: Seq<u8>,
    addon_type: Seq<u8>,
    tags: Seq<Seq<u8>>,
)
    requires
        holds_at(s, 0, front_bytes(description, addon_type)),
        holds_at(
            s,
            front_bytes(description, addon_type).len() as int,
            tag_list(tags, tags.len()),
        ),
        holds_at(
            s,
            (front_bytes(description, addon_type).len() + tag_list(tags, tags.len()).len()) as int,
            seq![0x5du8, 0x7du8],
        ),
        s.len() == front_bytes(description, addon_type).len() + tag_list(tags, tags.len()).len()
            + 2,
    ensures
        run(s, 0, start()) == Some(written_members(description, addon_type, tags)),
{
    let k3 = "tags".spec_bytes();
    let base: int = front_bytes(description, addon_type).len() as int;
    let before = front_members(description, addon_type);
    lemma_run_front(s, description, addon_type, tags);
    assert(tag_list(tags, 0).len() == 0);
    lemma_run_tags(s, base, before, k3, tags, 0);
    let last = among_tags(before, k3, tags, tags.len());
    lemma_run_end(s, base + tag_list(tags, tags.len()).len(), last);
    assert(tags.subrange(0, tags.len() as int) =~= tags);
    assert(last.members =~= written_members(description, addon_type, tags));
}

/// The description field that is written for an addon is a JSON document,
/// and its members are the description, the type and the tags.
pub proof fn lemma_document_of_description(
    description: Seq<u8>,
    addon_type: Seq<u8>,
    tags: Seq<Seq<u8>>,
)
    ensures
        document(description_json(description, addon_type, tags)) == Some(
            written_members(description, addon_type, tags),
        ),
{
    let s = description_json(description, addon_type, tags);
    let front = front_bytes(description, addon_type);
    let list = tag_list(tags, tags.len());
    let close = seq![0x5du8, 0x7du8];
    assert(s == front + list + close);
    assert(s.subrange(0, s.len() as int) =~= s);
    lemma_holds_parts(s, 0, front + list, close);
    lemma_holds_parts(s, 0, front, list);
    lemma_run_description(s, description, addon_type, tags);
}

/// The list of tags holds no byte below `0x20`.
pub proof fn lemma_tag_list_plain(tags: Seq<Seq<u8>>, n: nat)
    requires
        n <= tags.len(),
    ensures
        forall|i: int| 0 <= i < tag_list(tags, n).len() ==> #[trigger] tag_list(tags, n)[i] >= 0x20,
    decreases n,
{
    if n > 0 {
        lemma_tag_list_plain(tags, (n - 1) as nat);
        lemma_escaped_plain(tags[n - 1]);
        let whole = tag_list(tags, n);
        let head = tag_list(tags, (n - 1) as nat);
        let text = escaped(tags[n - 1]);
        assert forall|i: int| 0 <= i < whole.len() implies #[trigger] whole[i] >= 0x20 by {
            if n == 1 {
                if 1 <= i <= text.len() {
                    assert(whole[i] == text[i - 1]);
                }
            } else {
                if i < head.len() {
                    assert(whole[i] == head[i]);
                } else if head.len() + 2 <= i < whole.len() - 1 {
                    assert(whole[i] == text[i - head.len() - 2]);
                }
            }
        }
    }
}

/// A quoted text holds no byte below `0x20`.
pub proof fn lemma_quoted_plain(text: Seq<u8>)
    ensures
        forall|i: int| 0 <= i < quoted(text).len() ==> #[trigger] quoted(text)[i] >= 0x20,
{
    lemma_escaped_plain(text);
    assert forall|i: int| 0 <= i < quoted(text).len() implies #[trigger] quoted(text)[i]
        >= 0x20 by {
        if 1 <= i <= escaped(text).len() {
            assert(quoted(text)[i] == escaped(text)[i - 1]);
        }
    }
}

/// Where every byte of two texts is `0x20` or more, so is every byte of the
/// two laid end to end.
pub proof fn lemma_plain_joined(a: Seq<u8>, b: Seq<u8>)
    requires
        forall|i: int| 0 <= i < a.len() ==> #[trigger] a[i] >= 0x20,
        forall|i: int| 0 <= i < b.len() ==> #[trigger] b[i] >= 0x20,
    ensures
        forall|i: int| 0 <= i < (a + b).len() ==> #[trigger] (a + b)[i] >= 0x20,
{
    assert forall|i: int| 0 <= i < (a + b).len() implies #[trigger] (a + b)[i] >= 0x20 by {
        if i < a.len() {
            assert((a + b)[i] == a[i]);
        } else {
            assert((a + b)[i] == b[i - a.len()]);
        }
    }
}

/// The written description field holds no zero byte, and so can stand in
/// an archive.
pub proof fn lemma_description_plain(description: Seq<u8>, addon_type: Seq<u8>, tags: Seq<Seq<u8>>)
    ensures
        no_nul(description_json(description, addon_type, tags)),
{
    let s = description_json(description, addon_type, tags);
    let x0 = seq![0x7bu8];
    let x1 = quoted("description".spec_bytes());
    let x2 = seq![0x3au8];
    let x3 = quoted(description);
    let x4 = seq![0x2cu8];
    let x5 = quoted("type".spec_bytes());
    let x7 = quoted(addon_type);
    let x9 = quoted("tags".spec_bytes());
    let x10 = seq![0x3au8, 0x5bu8];
    let x11 = tag_list(tags, tags.len());
    let x12 = seq![0x5du8, 0x7du8];
    lemma_quoted_plain("description".spec_bytes());
    lemma_quoted_plain(description);
    lemma_quoted_plain("type".spec_bytes());
    lemma_quoted_plain(addon_type);
    lemma_quoted_plain("tags".spec_bytes());
    lemma_tag_list_plain(tags, tags.len());
    lemma_plain_joined(x0, x1);
    lemma_plain_joined(x0 + x1, x2);
    lemma_plain_joined(x0 + x1 + x2, x3);
    lemma_plain_joined(x0 + x1 + x2 + x3, x4);
    lemma_plain_joined(x0 + x1 + x2 + x3 + x4, x5);
    lemma_plain_joined(x0 + x1 + x2 + x3 + x4 + x5, x2);
    lemma_plain_joined(x0 + x1 + x2 + x3 + x4 + x5 + x2, x7);
    lemma_plain_joined(x0 + x1 + x2 + x3 + x4 + x5 + x2 + x7, x4);
    lemma_plain_joined(x0 + x1 + x2 + x3 + x4 + x5 + x2 + x7 + x4, x9);
    lemma_plain_joined(x0 + x1 + x2 + x3 + x4 + x5 + x2 + x7 + x4 + x9, x10);
    lemma_plain_joined(x0 + x1 + x2 + x3 + x4 + x5 + x2 + x7 + x4 + x9 + x10, x11);
    lemma_plain_joined(x0 + x1 + x2 + x3 + x4 + x5 + x2 + x7 + x4 + x9 + x10 + x11, x12);
    assert forall|i: int| 0 <= i < s.len() implies #[trigger] s[i] != 0 by {
        assert(s[i] >= 0x20);
    }
}

/// The description field that is written for an addon gives the description
/// and the tags back when it is read, and can stand in an archive: it holds
/// no zero byte.
pub proof fn lemma_description_round_trip(
    description: Seq<u8>,
    addon_type: Seq<u8>,
    tags: Seq<Seq<u8>>,
)
    ensures
        plain_description(description_json(description, addon_type, tags)) == description,
        carried_tags(description_json(description, addon_type, tags)) == tags,
        no_nul(description_json(description, addon_type, tags)),
{
    lemma_document_of_description(description, addon_type, tags);
    lemma_keys_differ();
    let members = written_members(description, addon_type, tags);
    assert(members.drop_first()[0] == members[1]);
    assert(members.drop_first().drop_first()[0] == members[2]);
    assert(child(members, "description".spec_bytes()) == Some(members[0]));
    assert(child(members.drop_first().drop_first(), "tags".spec_bytes()) == Some(members[2]));
    assert(child(members.drop_first(), "tags".spec_bytes()) == Some(members[2]));
    assert(child(members, "tags".spec_bytes()) == Some(members[2]));
    lemma_description_plain(description, addon_type, tags);
}

} // verus!
