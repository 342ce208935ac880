//! JSON strings, and how a JSON array falls into its items.

use vstd::prelude::*;

use crate::hexadecimal::hex_char;
use crate::text::{decimal, digit_char};

verus! {

/// The error type of `serde_json`.
#[verifier::external_type_specification]
#[verifier::external_body]
pub struct ExJsonError(serde_json::Error);

/// How a character is written inside a JSON string.
pub open spec fn json_char(c: char) -> Seq<char> {
    if c == '"' || c == '\\' {
        seq!['\\', c]
    } else if c == '\u{8}' {
        seq!['\\', 'b']
    } else if c == '\u{9}' {
        seq!['\\', 't']
    } else if c == '\u{a}' {
        seq!['\\', 'n']
    } else if c == '\u{c}' {
        seq!['\\', 'f']
    } else if c == '\u{d}' {
        seq!['\\', 'r']
    } else if 0x20 > c as u32 {
        seq!['\\', 'u', '0', '0', hex_char(c as int / 16), hex_char(c as int % 16)]
    } else {
        seq![c]
    }
}

/// The inside of the JSON string of a text.
pub open spec fn json_escaped(s: Seq<char>) -> Seq<char>
    decreases s.len(),
{
    if s.len() == 0 {
        Seq::empty()
    } else {
        json_escaped(s.drop_last()) + json_char(s.last())
    }
}

/// The JSON string of a text.
pub open spec fn json_string(s: Seq<char>) -> Seq<char> {
    seq!['"'] + json_escaped(s) + seq!['"']
}

/// Trusted: `serde_json::to_string` on a text. It writes the text between
/// quotes; a quote, a backslash and the control characters are escaped, those
/// with a short escape by it and the others by four hexadecimal digits;
/// everything else stands for itself. Writing to memory does not fail.
#[verifier::external_body]
fn to_json(s: &str) -> (r: Result<String, serde_json::Error>)
    ensures
        r is Ok,
        r->Ok_0@ == json_string(s@),
{
    serde_json::to_string(s)
}

/// Appends the JSON string of `s`.
pub fn push_json(out: &mut String, s: &str) -> (r: Result<(), serde_json::Error>)
    ensures
        r is Ok,
        final(out)@ == old(out)@ + json_string(s@),
{
    match to_json(s) {
        Ok(text) => {
            out.append(text.as_str());
            Ok(())
        },
        Err(e) => Err(e),
    }
}

// ------------------------------------------------------------ arrays

/// Where a reader of JSON text is: how many brackets and braces are open,
/// whether it is inside a string, and whether a backslash came just before.
#[verifier::ext_equal]
pub struct Mode {
    pub depth: int,
    pub quoted: bool,
    pub escaped: bool,
}

/// Outside strings, with `depth` brackets and braces open.
pub open spec fn outside(depth: int) -> Mode {
    Mode { depth, quoted: false, escaped: false }
}

/// Inside a string, with `depth` brackets and braces open.
pub open spec fn inside(depth: int) -> Mode {
    Mode { depth, quoted: true, escaped: false }
}

/// Where the reader is after one more character.
pub open spec fn mode_step(m: Mode, c: char) -> Mode {
    if m.quoted {
        if m.escaped {
            inside(m.depth)
        } else if c == '\\' {
            Mode { escaped: true, ..m }
        } else if c == '"' {
            outside(m.depth)
        } else {
            m
        }
    } else if c == '"' {
        inside(m.depth)
    } else if c == '[' || c == '{' {
        outside(m.depth + 1)
    } else if c == ']' || c == '}' {
        outside(m.depth - 1)
    } else {
        m
    }
}

/// Whether a character stands between the items of the outermost array, or
/// before the first or after the last of them.
pub open spec fn is_break(m: Mode, c: char) -> bool {
    !m.quoted && (m.depth == 0 || (m.depth == 1 && (c == ',' || c == ']' || c == '}')))
}

/// What a reader of an array has: where it is, what it has read of the current
/// item, and the items before it.
#[verifier::ext_equal]
pub struct Scan {
    pub mode: Mode,
    pub item: Seq<char>,
    pub items: Seq<Seq<char>>,
}

/// What the reader has after one more character.
pub open spec fn scan_step(s: Scan, c: char) -> Scan {
    let mode = mode_step(s.mode, c);
    if is_break(s.mode, c) {
        let items = if s.item.len() > 0 { s.items.push(s.item) } else { s.items };
        Scan { mode, item: Seq::empty(), items }
    } else {
        Scan { mode, item: s.item.push(c), items: s.items }
    }
}

/// What the reader has after the first `n` characters of `text`.
pub open spec fn scan(s: Scan, text: Seq<char>, n: nat) -> Scan
    decreases n,
{
    if n == 0 {
        s
    } else {
        scan_step(scan(s, text, (n - 1) as nat), text[n - 1])
    }
}

/// The texts of the items of the JSON array `text`.
pub open spec fn array_items(text: Seq<char>) -> Seq<Seq<char>> {
    scan(
        Scan { mode: outside(0), item: Seq::empty(), items: Seq::empty() },
        text,
        text.len(),
    ).items
}

/// Reading one text after another is reading them as one.
pub proof fn lemma_scan_join(s: Scan, a: Seq<char>, b: Seq<char>, n: nat)
    requires
        n <= b.len(),
    ensures
        scan(s, a + b, a.len()) == scan(s, a, a.len()),
        scan(s, a + b, a.len() + n) == scan(scan(s, a, a.len()), b, n),
    decreases n,
{
    lemma_scan_prefix(s, a, b, a.len());
    if n > 0 {
        lemma_scan_join(s, a, b, (n - 1) as nat);
        assert((a + b)[a.len() + n - 1] == b[n - 1]);
    }
}

proof fn lemma_scan_prefix(s: Scan, a: Seq<char>, b: Seq<char>, n: nat)
    requires
        n <= a.len(),
    ensures
        scan(s, a + b, n) == scan(s, a, n),
    decreases n,
{
    if n > 0 {
        lemma_scan_prefix(s, a, b, (n - 1) as nat);
        assert((a + b)[n - 1] == a[n - 1]);
    }
}

/// Where the reader is after the first `n` characters of `text`, and whether
/// none of them was a break.
pub open spec fn track(m: Mode, text: Seq<char>, n: nat) -> (Mode, bool)
    decreases n,
{
    if n == 0 {
        (m, true)
    } else {
        let (before, unbroken) = track(m, text, (n - 1) as nat);
        (mode_step(before, text[n - 1]), unbroken && !is_break(before, text[n - 1]))
    }
}

/// Whether reading `text` leads from one mode to another within one item.
pub open spec fn leads(text: Seq<char>, from: Mode, to: Mode) -> bool {
    track(from, text, text.len()) == (to, true)
}

proof fn lemma_track_join(m: Mode, a: Seq<char>, b: Seq<char>, n: nat)
    requires
        n <= b.len(),
    ensures
        track(m, a + b, a.len()) == track(m, a, a.len()),
        track(m, a + b, a.len() + n) == ({
            let (middle, unbroken) = track(m, a, a.len());
            let (end, unbroken_too) = track(middle, b, n);
            (end, unbroken && unbroken_too)
        }),
    decreases n,
{
    lemma_track_prefix(m, a, b, a.len());
    if n > 0 {
        lemma_track_join(m, a, b, (n - 1) as nat);
        assert((a + b)[a.len() + n - 1] == b[n - 1]);
    }
}

proof fn lemma_track_prefix(m: Mode, a: Seq<char>, b: Seq<char>, n: nat)
    requires
        n <= a.len(),
    ensures
        track(m, a + b, n) == track(m, a, n),
    decreases n,
{
    if n > 0 {
        lemma_track_prefix(m, a, b, (n - 1) as nat);
        assert((a + b)[n - 1] == a[n - 1]);
    }
}

/// Texts that lead from mode to mode can be put together.
pub proof fn lemma_leads_join(a: Seq<char>, b: Seq<char>, from: Mode, middle: Mode, to: Mode)
    requires
        leads(a, from, middle),
        leads(b, middle, to),
    ensures
        leads(a + b, from, to),
{
    lemma_track_join(from, a, b, b.len());
}

/// The empty text leads nowhere.
pub proof fn lemma_empty_leads(m: Mode)
    ensures
        leads(Seq::empty(), m, m),
{
}

/// A text that leads from mode to mode is read as part of the current item.
pub proof fn lemma_scan_leads(s: Scan, text: Seq<char>, to: Mode)
    requires
        leads(text, s.mode, to),
    ensures
        scan(s, text, text.len()) == (Scan { mode: to, item: s.item + text, items: s.items }),
{
    lemma_scan_track(s, text, text.len());
    assert(text.subrange(0, text.len() as int) =~= text);
}

proof fn lemma_scan_track(s: Scan, text: Seq<char>, n: nat)
    requires
        n <= text.len(),
        track(s.mode, text, n).1,
    ensures
        scan(s, text, n) == (Scan {
            mode: track(s.mode, text, n).0,
            item: s.item + text.subrange(0, n as int),
            items: s.items,
        }),
    decreases n,
{
    if n == 0 {
        assert(s.item + text.subrange(0, 0) =~= s.item);
    } else {
        lemma_scan_track(s, text, (n - 1) as nat);
        assert((s.item + text.subrange(0, n - 1)).push(text[n - 1]) =~= s.item + text.subrange(
            0,
            n as int,
        ));
    }
}

/// Whether a character outside strings means nothing to the reader, save where
/// a comma stands between items.
pub open spec fn is_mark(c: char) -> bool {
    c == ':' || c == ',' || '0' <= c <= '9'
}

/// A mark changes nothing within an item.
pub proof fn lemma_mark_leads(c: char, depth: int)
    requires
        is_mark(c),
        depth >= 2 || (depth == 1 && c != ','),
    ensures
        leads(seq![c], outside(depth), outside(depth)),
{
    reveal_with_fuel(track, 2);
}

/// How a character is written inside a string does not end the string.
proof fn lemma_json_char_leads(c: char, depth: int)
    ensures
        leads(json_char(c), inside(depth), inside(depth)),
{
    reveal_with_fuel(track, 7);
}

/// Whatever the text, its JSON form does not end the string early.
proof fn lemma_json_escaped_leads(s: Seq<char>, depth: int)
    ensures
        leads(json_escaped(s), inside(depth), inside(depth)),
    decreases s.len(),
{
    if s.len() > 0 {
        lemma_json_escaped_leads(s.drop_last(), depth);
        lemma_json_char_leads(s.last(), depth);
        lemma_leads_join(
            json_escaped(s.drop_last()),
            json_char(s.last()),
            inside(depth),
            inside(depth),
            inside(depth),
        );
    }
}

/// Whatever the text, a reader is outside strings again after its JSON string,
/// with as much open as before.
pub proof fn lemma_json_string_leads(s: Seq<char>, depth: int)
    requires
        depth >= 1,
    ensures
        leads(json_string(s), outside(depth), outside(depth)),
{
    let quote = seq!['"'];
    assert(leads(quote, outside(depth), inside(depth))) by {
        reveal_with_fuel(track, 2);
    }
    assert(leads(quote, inside(depth), outside(depth))) by {
        reveal_with_fuel(track, 2);
    }
    lemma_json_escaped_leads(s, depth);
    lemma_leads_join(quote, json_escaped(s), outside(depth), inside(depth), inside(depth));
    lemma_leads_join(quote + json_escaped(s), quote, outside(depth), inside(depth), outside(depth));
}

/// A number in decimal changes nothing within an item.
pub proof fn lemma_decimal_leads(n: nat, depth: int)
    requires
        depth >= 1,
    ensures
        leads(decimal(n), outside(depth), outside(depth)),
    decreases n,
{
    lemma_mark_leads(digit_char(n % 10), depth);
    if n >= 10 {
        lemma_decimal_leads(n / 10, depth);
        lemma_leads_join(
            decimal(n / 10),
            seq![digit_char(n % 10)],
            outside(depth),
            outside(depth),
            outside(depth),
        );
        assert(decimal(n) =~= decimal(n / 10) + seq![digit_char(n % 10)]);
    } else {
        assert(decimal(n) =~= seq![digit_char(n % 10)]);
    }
}

// ------------------------------------------------------------ objects

/// The texts of the members of the JSON object `text`. A brace encloses the
/// members of an object as a bracket does the items of an array.
pub open spec fn members(text: Seq<char>) -> Seq<Seq<char>> {
    array_items(text)
}

/// A member with a plain key.
pub open spec fn field(key: Seq<char>, value: Seq<char>) -> Seq<char> {
    seq!['"'] + key + seq!['"', ':'] + value
}

/// Whether a JSON object has this member.
pub open spec fn has_member(object: Seq<char>, key: Seq<char>, value: Seq<char>) -> bool {
    members(object).contains(field(key, value))
}

/// Texts with commas between them.
pub open spec fn separated(items: Seq<Seq<char>>) -> Seq<char>
    decreases items.len(),
{
    if items.len() == 0 {
        Seq::empty()
    } else if items.len() == 1 {
        items[0]
    } else {
        separated(items.drop_last()) + seq![','] + items.last()
    }
}

/// A reader between items that has read an item, then a comma.
pub proof fn lemma_scan_comma(s: Scan)
    requires
        s.mode == outside(1),
        s.item.len() > 0,
    ensures
        scan(s, seq![','], 1) == (Scan {
            mode: outside(1),
            item: Seq::empty(),
            items: s.items.push(s.item),
        }),
{
    reveal_with_fuel(scan, 2);
}

proof fn lemma_scan_separated(s: Scan, items: Seq<Seq<char>>)
    requires
        s.mode == outside(1),
        s.item.len() == 0,
        items.len() > 0,
        forall|i: int|
            0 <= i < items.len() ==> (#[trigger] items[i]).len() > 0 && leads(
                items[i],
                outside(1),
                outside(1),
            ),
    ensures
        scan(s, separated(items), separated(items).len()) == (Scan {
            mode: outside(1),
            item: items.last(),
            items: s.items + items.drop_last(),
        }),
    decreases items.len(),
{
    let last = items.last();
    assert(last == items[items.len() - 1]);
    if items.len() == 1 {
        lemma_scan_leads(s, last, outside(1));
        assert(s.item + last =~= last);
        assert(s.items + items.drop_last() =~= s.items);
    } else {
        let front = items.drop_last();
        let written = separated(front);
        assert forall|i: int| 0 <= i < front.len() implies (#[trigger] front[i]).len() > 0
            && leads(front[i], outside(1), outside(1)) by {
            assert(front[i] == items[i]);
        }
        lemma_scan_separated(s, front);
        assert(front.last() == items[items.len() - 2]);
        let after_front = scan(s, written, written.len());
        lemma_scan_join(s, written, seq![','], 1);
        lemma_scan_comma(after_front);
        let after_comma = scan(after_front, seq![','], 1);
        lemma_scan_join(s, written + seq![','], last, last.len());
        lemma_scan_leads(after_comma, last, outside(1));
        assert(after_comma.item + last =~= last);
        assert(after_comma.items =~= s.items + items.drop_last());
    }
}

/// Members between braces are read back one by one.
pub proof fn lemma_members_are_read_back(items: Seq<Seq<char>>)
    requires
        forall|i: int|
            0 <= i < items.len() ==> (#[trigger] items[i]).len() > 0 && leads(
                items[i],
                outside(1),
                outside(1),
            ),
    ensures
        members(seq!['{'] + separated(items) + seq!['}']) == items,
{
    let start = Scan { mode: outside(0), item: Seq::empty(), items: Seq::empty() };
    let written = separated(items);
    reveal_with_fuel(scan, 2);
    let opened = scan(start, seq!['{'], 1);
    assert(opened == (Scan { mode: outside(1), item: Seq::empty(), items: Seq::empty() }));
    lemma_scan_join(start, seq!['{'], written, written.len());
    lemma_scan_join(start, seq!['{'] + written, seq!['}'], 1);
    let read = scan(opened, written, written.len());
    assert(scan(read, seq!['}'], 1) == scan_step(read, '}'));
    if items.len() > 0 {
        lemma_scan_separated(opened, items);
        assert(items.last() == items[items.len() - 1]);
        assert(items.drop_last().push(items.last()) =~= items);
    }
    assert(members(seq!['{'] + separated(items) + seq!['}']) =~= items);
}

/// A reader that has read an item, then a comma and a member with a plain key,
/// has that member at hand.
pub proof fn lemma_scan_field(
    start: Scan,
    before: Seq<char>,
    lead: Seq<char>,
    key: Seq<char>,
    value: Seq<char>,
)
    requires
        scan(start, before, before.len()).mode == outside(1),
        scan(start, before, before.len()).item.len() > 0,
        lead == seq![','] + (seq!['"'] + key + seq!['"', ':']),
        leads(key, inside(1), inside(1)),
        leads(value, outside(1), outside(1)),
    ensures
        scan(start, before + lead + value, (before + lead + value).len()) == (Scan {
            mode: outside(1),
            item: field(key, value),
            items: scan(start, before, before.len()).items.push(
                scan(start, before, before.len()).item,
            ),
        }),
{
    let read = scan(start, before, before.len());
    let quoted = seq!['"'] + key + seq!['"', ':'];
    lemma_scan_comma(read);
    let at = scan(read, seq![','], 1);
    lemma_key_leads(key);
    lemma_scan_leads(at, quoted, outside(1));
    lemma_scan_join(read, seq![','], quoted, quoted.len());
    lemma_scan_join(start, before, lead, lead.len());
    let keyed = scan(start, before + lead, (before + lead).len());
    assert(at.item + quoted =~= quoted);
    lemma_scan_leads(keyed, value, outside(1));
    lemma_scan_join(start, before + lead, value, value.len());
    assert(quoted + value =~= field(key, value));
}

/// A plain key and its colon stay within a member.
pub proof fn lemma_key_leads(key: Seq<char>)
    requires
        leads(key, inside(1), inside(1)),
    ensures
        leads(seq!['"'] + key + seq!['"', ':'], outside(1), outside(1)),
{
    assert(leads(seq!['"'], outside(1), inside(1))) by {
        reveal_with_fuel(track, 2);
    }
    assert(leads(seq!['"', ':'], inside(1), outside(1))) by {
        reveal_with_fuel(track, 3);
    }
    lemma_leads_join(seq!['"'], key, outside(1), inside(1), inside(1));
    lemma_leads_join(seq!['"'] + key, seq!['"', ':'], outside(1), inside(1), outside(1));
}

/// Members with plain keys are the same only where their keys start with the
/// same letters; and where the keys are the same, so are the values.
pub proof fn lemma_fields_told_apart(k1: Seq<char>, v1: Seq<char>, k2: Seq<char>, v2: Seq<char>)
    requires
        field(k1, v1) == field(k2, v2),
        k1.len() >= 2,
        k2.len() >= 2,
    ensures
        k1[0] == k2[0],
        k1[1] == k2[1],
        k1 == k2 ==> v1 == v2,
{
    let a = field(k1, v1);
    let b = field(k2, v2);
    assert(a[1] == k1[0] && a[2] == k1[1]);
    assert(b[1] == k2[0] && b[2] == k2[1]);
    if k1 == k2 {
        let n = k1.len() + 3;
        assert(a.len() == n + v1.len() && b.len() == n + v2.len());
        assert(v1 =~= a.subrange(n as int, a.len() as int));
        assert(v2 =~= b.subrange(n as int, b.len() as int));
    }
}

// ------------------------------------------------------------ values

/// The number that a hexadecimal digit stands for.
pub open spec fn hex_value(c: char) -> int {
    if c <= '9' {
        c as int - '0' as int
    } else {
        c as int - 'a' as int + 10
    }
}

/// The character that a short escape stands for.
pub open spec fn short_escape(c: char) -> char {
    if c == 'b' {
        '\u{8}'
    } else if c == 't' {
        '\u{9}'
    } else if c == 'n' {
        '\u{a}'
    } else if c == 'f' {
        '\u{c}'
    } else if c == 'r' {
        '\u{d}'
    } else {
        c
    }
}

/// The text that the inside of a JSON string stands for.
pub open spec fn unescaped(text: Seq<char>) -> Seq<char>
    decreases text.len(),
{
    if text.len() == 0 {
        Seq::empty()
    } else if text[0] == '\\' && text.len() >= 6 && text[1] == 'u' {
        let code = 4096 * hex_value(text[2]) + 256 * hex_value(text[3]) + 16 * hex_value(text[4])
            + hex_value(text[5]);
        seq![code as char] + unescaped(text.skip(6))
    } else if text[0] == '\\' && text.len() >= 2 {
        seq![short_escape(text[1])] + unescaped(text.skip(2))
    } else {
        seq![text[0]] + unescaped(text.skip(1))
    }
}

/// The text that a JSON string stands for.
pub open spec fn string_of(text: Seq<char>) -> Seq<char> {
    unescaped(text.subrange(1, text.len() - 1))
}

proof fn lemma_char_is_read_back(c: char, rest: Seq<char>)
    ensures
        unescaped(json_char(c) + rest) == seq![c] + unescaped(rest),
{
    let text = json_char(c) + rest;
    let n = json_char(c).len() as int;
    assert(text.skip(n) =~= rest);
    assert(forall|i: int| 0 <= i < n ==> text[i] == json_char(c)[i]);
    if n == 6 {
        let d = c as int / 16;
        let e = c as int % 16;
        assert(text[2] == '0' && text[3] == '0' && text[4] == hex_char(d) && text[5] == hex_char(
            e,
        ));
        assert(hex_value(hex_char(d)) == d);
        assert(hex_value(hex_char(e)) == e);
        assert(16 * d + e == c as int);
    }
}

proof fn lemma_json_escaped_first(s: Seq<char>)
    requires
        s.len() > 0,
    ensures
        json_escaped(s) == json_char(s.first()) + json_escaped(s.drop_first()),
    decreases s.len(),
{
    if s.len() == 1 {
        assert(s.drop_last() =~= Seq::empty());
        assert(s.drop_first() =~= Seq::empty());
        assert(json_escaped(s) =~= json_char(s.first()) + json_escaped(s.drop_first()));
    } else {
        let front = s.drop_last();
        lemma_json_escaped_first(front);
        assert(front.drop_first() =~= s.drop_first().drop_last());
        assert(s.drop_first().last() == s.last());
        assert(json_char(s.first()) + json_escaped(front.drop_first()) + json_char(s.last())
            =~= json_char(s.first()) + (json_escaped(front.drop_first()) + json_char(s.last())));
    }
}

proof fn lemma_escaped_is_read_back(s: Seq<char>)
    ensures
        unescaped(json_escaped(s)) == s,
    decreases s.len(),
{
    if s.len() > 0 {
        lemma_json_escaped_first(s);
        lemma_char_is_read_back(s.first(), json_escaped(s.drop_first()));
        lemma_escaped_is_read_back(s.drop_first());
        assert(seq![s.first()] + s.drop_first() =~= s);
    } else {
        assert(unescaped(json_escaped(s)) =~= s);
    }
}

/// Any text is read back from its JSON string.
pub proof fn lemma_string_is_read_back(s: Seq<char>)
    ensures
        string_of(json_string(s)) == s,
{
    lemma_escaped_is_read_back(s);
    let text = json_string(s);
    assert(text.subrange(1, text.len() - 1) =~= json_escaped(s));
}

/// Texts with the same JSON string are the same.
pub proof fn lemma_json_strings_told_apart(a: Seq<char>, b: Seq<char>)
    requires
        json_string(a) == json_string(b),
    ensures
        a == b,
{
    lemma_string_is_read_back(a);
    lemma_string_is_read_back(b);
}

} // verus!
