//! Text helpers: characters, trimming, decimal rendering, joining.

use vstd::prelude::*;
use vstd::string::StrSliceExecFns;
use vstd::string::StringExecFns;

verus! {

/// `String::push` appends the given character to the end of the string.
pub assume_specification[ String::push ](s: &mut String, c: char)
    ensures
        final(s)@ == old(s)@.push(c),
;

/// The Unicode `White_Space` property.
pub open spec fn white_space(c: char) -> bool {
    ||| '\u{9}' <= c <= '\u{d}'
    ||| c == ' '
    ||| c == '\u{85}'
    ||| c == '\u{a0}'
    ||| c == '\u{1680}'
    ||| '\u{2000}' <= c <= '\u{200a}'
    ||| c == '\u{2028}'
    ||| c == '\u{2029}'
    ||| c == '\u{202f}'
    ||| c == '\u{205f}'
    ||| c == '\u{3000}'
}

/// `s` without its leading white space.
pub open spec fn trimmed_start(s: Seq<char>) -> Seq<char>
    decreases s.len(),
{
    if s.len() > 0 && white_space(s[0]) {
        trimmed_start(s.skip(1))
    } else {
        s
    }
}

/// `s` without its trailing white space.
pub open spec fn trimmed_end(s: Seq<char>) -> Seq<char>
    decreases s.len(),
{
    if s.len() > 0 && white_space(s.last()) {
        trimmed_end(s.drop_last())
    } else {
        s
    }
}

/// `s` without white space at either end.
pub open spec fn trimmed(s: Seq<char>) -> Seq<char> {
    trimmed_end(trimmed_start(s))
}

/// `s` trimmed, or nothing when only white space is there.
pub open spec fn trimmed_or_none(s: Seq<char>) -> Option<Seq<char>> {
    if trimmed(s).len() == 0 {
        None
    } else {
        Some(trimmed(s))
    }
}

pub open spec fn ascii_digit(c: char) -> bool {
    '0' <= c <= '9'
}

pub open spec fn ascii_letter(c: char) -> bool {
    'a' <= c <= 'z' || 'A' <= c <= 'Z'
}

/// The decimal digit for `d`.
pub open spec fn digit_char(d: int) -> char
    recommends
        0 <= d < 10,
{
    if d == 0 {
        '0'
    } else if d == 1 {
        '1'
    } else if d == 2 {
        '2'
    } else if d == 3 {
        '3'
    } else if d == 4 {
        '4'
    } else if d == 5 {
        '5'
    } else if d == 6 {
        '6'
    } else if d == 7 {
        '7'
    } else if d == 8 {
        '8'
    } else {
        '9'
    }
}

/// The decimal rendering of `n`, without leading zeros.
pub open spec fn decimal(n: nat) -> Seq<char>
    decreases n,
{
    if n < 10 {
        seq![digit_char(n as int)]
    } else {
        decimal(n / 10).push(digit_char((n % 10) as int))
    }
}

/// `parts` one after another with `sep` between neighbours.
pub open spec fn joined(parts: Seq<Seq<char>>, sep: Seq<char>) -> Seq<char>
    decreases parts.len(),
{
    if parts.len() == 0 {
        Seq::empty()
    } else if parts.len() == 1 {
        parts[0]
    } else {
        joined(parts.drop_last(), sep) + sep + parts.last()
    }
}

/// The views of the items of a sequence.
pub open spec fn views<T: View>(items: Seq<T>) -> Seq<T::V> {
    Seq::new(items.len(), |i: int| items[i].view())
}

/// The view of what an option holds.
pub open spec fn view_opt<T: View>(item: Option<T>) -> Option<T::V> {
    match item {
        Some(t) => Some(t.view()),
        None => None,
    }
}

pub proof fn lemma_views_push<T: View>(items: Seq<T>, item: T)
    ensures
        views(items.push(item)) =~= views(items).push(item.view()),
{
}

pub proof fn lemma_views_add<T: View>(a: Seq<T>, b: Seq<T>)
    ensures
        views(a + b) =~= views(a) + views(b),
{
}

/// The characters of a string, in order.
pub fn chars_of(s: &str) -> (r: Vec<char>)
    ensures
        r@ == s@,
{
    let mut out: Vec<char> = Vec::new();
    for c in it: s.chars()
        invariant
            it.seq() == s@,
            out@ == s@.take(it.index() as int),
    {
        assert(s@.take(it.index() + 1) =~= s@.take(it.index() as int).push(c));
        out.push(c);
    }
    assert(s@.take(s@.len() as int) =~= s@);
    out
}

/// Whether two texts hold the same characters.
pub fn same_text(a: &str, b: &str) -> (r: bool)
    ensures
        r == (a@ == b@),
{
    a.to_owned() == b.to_owned()
}

/// Whether `text` is one of `items`.
pub fn contains_text(items: &[String], text: &str) -> (r: bool)
    ensures
        r == views(items@).contains(text@),
{
    let mut i: usize = 0;
    while i < items.len()
        invariant
            i <= items@.len(),
            forall|j: int| 0 <= j < i ==> items@[j]@ != text@,
        decreases items@.len() - i,
    {
        if same_text(items[i].as_str(), text) {
            assert(views(items@)[i as int] == text@);
            return true;
        }
        i += 1;
    }
    assert(forall|j: int| 0 <= j < items@.len() ==> views(items@)[j] != text@);
    false
}

pub fn is_white_space(c: char) -> (r: bool)
    ensures
        r == white_space(c),
{
    ('\u{9}' <= c && c <= '\u{d}') || c == ' ' || c == '\u{85}' || c == '\u{a0}' || c == '\u{1680}'
        || ('\u{2000}' <= c && c <= '\u{200a}') || c == '\u{2028}' || c == '\u{2029}' || c
        == '\u{202f}' || c == '\u{205f}' || c == '\u{3000}'
}

pub fn is_ascii_digit(c: char) -> (r: bool)
    ensures
        r == ascii_digit(c),
{
    '0' <= c && c <= '9'
}

pub fn is_ascii_letter(c: char) -> (r: bool)
    ensures
        r == ascii_letter(c),
{
    ('a' <= c && c <= 'z') || ('A' <= c && c <= 'Z')
}

proof fn lemma_trimmed_start_skips(s: Seq<char>, k: int)
    requires
        0 <= k <= s.len(),
        forall|i: int| 0 <= i < k ==> white_space(#[trigger] s[i]),
    ensures
        trimmed_start(s) == trimmed_start(s.skip(k)),
    decreases k,
{
    if k > 0 {
        assert(white_space(s[0]));
        assert forall|i: int| 0 <= i < k - 1 implies white_space(#[trigger] s.skip(1)[i]) by {
            assert(white_space(s[i + 1]));
        }
        lemma_trimmed_start_skips(s.skip(1), k - 1);
        assert(s.skip(1).skip(k - 1) =~= s.skip(k));
    } else {
        assert(s.skip(0) =~= s);
    }
}

proof fn lemma_trimmed_end_drops(s: Seq<char>, k: int)
    requires
        0 <= k <= s.len(),
        forall|i: int| k <= i < s.len() ==> white_space(#[trigger] s[i]),
    ensures
        trimmed_end(s) == trimmed_end(s.take(k)),
    decreases s.len() - k,
{
    if k < s.len() {
        assert(white_space(s[s.len() - 1]));
        lemma_trimmed_end_drops(s.drop_last(), k);
        assert(s.drop_last().take(k) =~= s.take(k));
    } else {
        assert(s.take(k) =~= s);
    }
}

proof fn lemma_trimmed_start_first(s: Seq<char>)
    ensures
        trimmed_start(s).len() > 0 ==> !white_space(trimmed_start(s)[0]),
    decreases s.len(),
{
    if s.len() > 0 && white_space(s[0]) {
        lemma_trimmed_start_first(s.skip(1));
    }
}

proof fn lemma_trimmed_end_last(s: Seq<char>)
    ensures
        trimmed_end(s).len() > 0 ==> !white_space(trimmed_end(s).last()) && trimmed_end(s)[0]
            == s[0],
    decreases s.len(),
{
    if s.len() > 0 && white_space(s.last()) {
        lemma_trimmed_end_last(s.drop_last());
    }
}

/// Trimming a trimmed text changes nothing.
pub proof fn lemma_trimmed_ends(s: Seq<char>)
    ensures
        trimmed(trimmed(s)) == trimmed(s),
{
    lemma_trimmed_start_first(s);
    lemma_trimmed_end_last(trimmed_start(s));
}

/// `value` without white space at either end; nothing when no other
/// character is there.
pub fn non_empty_trimmed(value: &str) -> (r: Option<&str>)
    ensures
        view_opt(r) == trimmed_or_none(value@),
{
    let chars = chars_of(value);
    let mut start: usize = 0;
    while start < chars.len() && is_white_space(chars[start])
        invariant
            start <= chars@.len(),
            chars@ == value@,
            forall|i: int| 0 <= i < start ==> white_space(#[trigger] chars@[i]),
        decreases chars@.len() - start,
    {
        start += 1;
    }
    let mut end: usize = chars.len();
    while end > start && is_white_space(chars[end - 1])
        invariant
            start <= end <= chars@.len(),
            forall|i: int| end <= i < chars@.len() ==> white_space(#[trigger] chars@[i]),
        decreases end,
    {
        end -= 1;
    }
    proof {
        lemma_trimmed_start_skips(value@, start as int);
        let tail = value@.skip(start as int);
        assert(trimmed_start(value@) == tail);
        assert forall|i: int| end - start <= i < tail.len() implies white_space(#[trigger] tail[i]) by {
            assert(white_space(chars@[i + start]));
        }
        lemma_trimmed_end_drops(tail, end - start);
        assert(tail.take(end - start) =~= value@.subrange(start as int, end as int));
        assert(trimmed(value@) == value@.subrange(start as int, end as int));
    }
    if start == end {
        None
    } else {
        Some(value.substring_char(start, end))
    }
}

fn digit(d: u64) -> (r: char)
    requires
        d < 10,
    ensures
        r == digit_char(d as int),
{
    if d == 0 {
        '0'
    } else if d == 1 {
        '1'
    } else if d == 2 {
        '2'
    } else if d == 3 {
        '3'
    } else if d == 4 {
        '4'
    } else if d == 5 {
        '5'
    } else if d == 6 {
        '6'
    } else if d == 7 {
        '7'
    } else if d == 8 {
        '8'
    } else {
        '9'
    }
}

/// Appends the decimal rendering of `n` to `out`.
pub fn push_decimal(out: &mut String, n: u64)
    ensures
        final(out)@ == old(out)@ + decimal(n as nat),
    decreases n,
{
    if n >= 10 {
        push_decimal(out, n / 10);
    }
    out.push(digit(n % 10));
    assert(out@ =~= old(out)@ + decimal(n as nat));
}

/// `parts` one after another with `sep` between neighbours.
pub fn join_texts(parts: &[String], sep: &str) -> (r: String)
    ensures
        r@ == joined(views(parts@), sep@),
{
    let mut out = String::new();
    let mut i: usize = 0;
    while i < parts.len()
        invariant
            i <= parts@.len(),
            out@ == joined(views(parts@).take(i as int), sep@),
        decreases parts@.len() - i,
    {
        proof {
            let all = views(parts@);
            assert(all.take(i + 1).drop_last() =~= all.take(i as int));
            assert(all.take(i + 1).last() == parts@[i as int]@);
        }
        if i > 0 {
            out.append(sep);
        }
        out.append(parts[i].as_str());
        assert(out@ =~= joined(views(parts@).take(i + 1), sep@));
        i += 1;
    }
    assert(views(parts@).take(parts@.len() as int) =~= views(parts@));
    out
}

/// White space, by code points.
pub proof fn law_white_space_by_code_points(c: char)
    ensures
        white_space(c) <==> {
            let point = c as u32;
            ||| 9 <= point <= 13
            ||| point == 32
            ||| point == 133
            ||| point == 160
            ||| point == 5760
            ||| 8192 <= point <= 8202
            ||| point == 8232
            ||| point == 8233
            ||| point == 8239
            ||| point == 8287
            ||| point == 12288
        },
{
}

/// ASCII digits and letters, by code points.
pub proof fn law_digits_and_letters_by_code_points(c: char)
    ensures
        ascii_digit(c) <==> 48 <= c as u32 <= 57,
        ascii_letter(c) <==> 65 <= c as u32 <= 90 || 97 <= c as u32 <= 122,
{
}

/// Trimming strips the white space on either side of a text that neither starts nor
/// ends with some, and leaves that text whole.
pub proof fn law_trimming_strips_the_ends(lead: Seq<char>, core: Seq<char>, tail: Seq<char>)
    requires
        forall|i: int| 0 <= i < lead.len() ==> white_space(#[trigger] lead[i]),
        forall|i: int| 0 <= i < tail.len() ==> white_space(#[trigger] tail[i]),
        core.len() > 0,
        !white_space(core[0]),
        !white_space(core.last()),
    ensures
        trimmed(lead + core + tail) == core,
        trimmed_or_none(lead + core + tail) == Some(core),
{
    let whole = lead + core + tail;
    let n = lead.len() as int;
    assert forall|i: int| 0 <= i < n implies white_space(#[trigger] whole[i]) by {
        assert(white_space(lead[i]));
    }
    lemma_trimmed_start_skips(whole, n);
    let rest = whole.skip(n);
    assert(rest =~= core + tail);
    assert(rest[0] == core[0]);
    let m = core.len() as int;
    assert forall|i: int| m <= i < rest.len() implies white_space(#[trigger] rest[i]) by {
        assert(white_space(tail[i - m]));
    }
    lemma_trimmed_end_drops(rest, m);
    assert(rest.take(m) =~= core);
}

/// Of a text of white space alone, trimming leaves nothing.
pub proof fn law_trimming_white_space_leaves_nothing(s: Seq<char>)
    requires
        forall|i: int| 0 <= i < s.len() ==> white_space(#[trigger] s[i]),
    ensures
        trimmed(s).len() == 0,
        trimmed_or_none(s) is None,
{
    lemma_trimmed_start_skips(s, s.len() as int);
    assert(s.skip(s.len() as int) =~= Seq::empty());
}

/// The number that a text of decimal digits spells.
pub open spec fn spelled_number(text: Seq<char>) -> int
    decreases text.len(),
{
    if text.len() == 0 {
        0
    } else {
        10 * spelled_number(text.drop_last()) + (text.last() as u32 - 48)
    }
}

/// The decimal rendering of a number consists of digits, spells the number, and has
/// no leading zero but for zero itself.
pub proof fn law_decimal_spells_the_number(n: nat)
    ensures
        decimal(n).len() > 0,
        forall|i: int| 0 <= i < decimal(n).len() ==> 48 <= (#[trigger] decimal(n)[i]) as u32 <= 57,
        spelled_number(decimal(n)) == n,
        n > 0 ==> decimal(n)[0] as u32 != 48,
    decreases n,
{
    if n < 10 {
        let text = decimal(n);
        assert(text.drop_last() =~= Seq::empty());
        assert(spelled_number(text.drop_last()) == 0);
        assert(text.last() == digit_char(n as int));
    } else {
        law_decimal_spells_the_number(n / 10);
        let front = decimal(n / 10);
        let text = decimal(n);
        assert(text.drop_last() =~= front);
        assert(text.last() == digit_char((n % 10) as int));
        assert forall|i: int| 0 <= i < text.len() implies 48 <= (#[trigger] text[i]) as u32 <= 57 by {
            if i < front.len() {
                assert(text[i] == front[i]);
            }
        }
    }
}

/// Joining two lists of parts is joining the one, the separator, and joining the
/// other. One part alone is joined to itself, and none to nothing.
pub proof fn law_joined_keeps_the_parts(
    first: Seq<Seq<char>>,
    second: Seq<Seq<char>>,
    part: Seq<char>,
    sep: Seq<char>,
)
    ensures
        joined(Seq::empty(), sep) =~= Seq::<char>::empty(),
        joined(seq![part], sep) =~= part,
        first.len() > 0 && second.len() > 0 ==> joined(first + second, sep) =~= joined(first, sep)
            + sep + joined(second, sep),
    decreases second.len(),
{
    if first.len() > 0 && second.len() > 0 {
        let whole = first + second;
        assert(whole.drop_last() =~= first + second.drop_last());
        assert(whole.last() == second.last());
        if second.len() == 1 {
            assert(first + second.drop_last() =~= first);
        } else {
            law_joined_keeps_the_parts(first, second.drop_last(), part, sep);
        }
    }
}

} // verus!
