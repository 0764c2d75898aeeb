//! Paths as the bytes a Unix host holds them in, and the lexical rules on
//! them: components, file name, prefix stripping and joining.

use crate::text::views;
use vstd::prelude::*;
use vstd::string::StringExecFns;
use vstd::utf8::{
    decode_utf8, encode_utf8, is_continuation_byte, length_of_first_scalar, pop_first_scalar,
    valid_utf8,
};

verus! {

/// The byte `/`.
pub const SLASH: u8 = 47;

/// The byte `.`.
pub const DOT: u8 = 46;

/// What `String::from_utf8_lossy` makes of `bytes`: the text they encode,
/// with U+FFFD in place of each invalid sequence.
pub uninterp spec fn lossy_text(bytes: Seq<u8>) -> Seq<char>;

/// `String::from_utf8_lossy`: bytes as text. The result is `lossy_text` of the
/// bytes, and bytes that are UTF-8 give the text that they encode.
#[verifier::external_body]
fn decode_lossy(bytes: &[u8]) -> (r: String)
    ensures
        r@ == lossy_text(bytes@),
        valid_utf8(bytes@) ==> r@ == decode_utf8(bytes@),
{
    String::from_utf8_lossy(bytes).into_owned()
}

/// `std::str::from_utf8`: the text that the bytes encode, or nothing when they
/// are not UTF-8.
#[verifier::external_body]
fn decode_strict(bytes: &[u8]) -> (r: Option<String>)
    ensures
        r is Some <==> valid_utf8(bytes@),
        r matches Some(t) ==> t@ == decode_utf8(bytes@),
{
    std::str::from_utf8(bytes).ok().map(|text| text.to_string())
}

/// Bytes as text: what they encode when they are UTF-8, and else their lossy
/// rendering.
pub open spec fn path_text(bytes: Seq<u8>) -> Seq<char> {
    if valid_utf8(bytes) {
        decode_utf8(bytes)
    } else {
        lossy_text(bytes)
    }
}

/// The end of the run without a `/` that starts at `from`.
pub open spec fn run_end(s: Seq<u8>, from: int) -> int
    decreases s.len() - from,
{
    if from < 0 || from >= s.len() || s[from] == SLASH {
        from
    } else {
        run_end(s, from + 1)
    }
}

/// Whether the run `s[from..to]` names nothing: it is empty or a single `.`.
pub open spec fn names_nothing(s: Seq<u8>, from: int, to: int) -> bool {
    from == to || (to == from + 1 && s[from] == DOT)
}

/// The places of the runs between slashes, from `from` on, that name something.
pub open spec fn named_runs(s: Seq<u8>, from: int) -> Seq<(int, int)>
    decreases s.len() - from,
{
    if from < 0 || from > s.len() {
        Seq::empty()
    } else {
        let to = run_end(s, from);
        let rest = if to < s.len() && to >= from {
            named_runs(s, to + 1)
        } else {
            Seq::empty()
        };
        if names_nothing(s, from, to) {
            rest
        } else {
            seq![(from, to)] + rest
        }
    }
}

/// Whether a path starts with a component of its own kind: the root `/`, or a
/// leading `.`.
pub open spec fn has_lead(s: Seq<u8>) -> bool {
    s.len() > 0 && (s[0] == SLASH || (s[0] == DOT && (s.len() == 1 || s[1] == SLASH)))
}

/// The places of a path's components: a leading `/` or `.`, then every run
/// between slashes that is neither empty nor a `.`.
pub open spec fn component_places(s: Seq<u8>) -> Seq<(int, int)> {
    if has_lead(s) {
        seq![(0int, 1int)] + named_runs(s, 0)
    } else {
        named_runs(s, 0)
    }
}

/// A path's components.
pub open spec fn components(s: Seq<u8>) -> Seq<Seq<u8>> {
    Seq::new(
        component_places(s).len(),
        |i: int| s.subrange(component_places(s)[i].0, component_places(s)[i].1),
    )
}

/// Whether a component is an ordinary name: not `/`, `.` or `..`.
pub open spec fn ordinary(component: Seq<u8>) -> bool {
    component != seq![SLASH] && component != seq![DOT] && component != seq![DOT, DOT]
}

/// A path's last component, when that is an ordinary name.
pub open spec fn file_name(s: Seq<u8>) -> Option<Seq<u8>> {
    let parts = components(s);
    if parts.len() > 0 && ordinary(parts.last()) {
        Some(parts.last())
    } else {
        None
    }
}

/// `file_name` as text, when the name is UTF-8.
pub open spec fn file_name_text(s: Seq<u8>) -> Option<Seq<char>> {
    match file_name(s) {
        Some(name) => if valid_utf8(name) {
            Some(decode_utf8(name))
        } else {
            None
        },
        None => None,
    }
}

/// Whether the components of `base` are the first components of `s`.
pub open spec fn under(s: Seq<u8>, base: Seq<u8>) -> bool {
    components(base).is_prefix_of(components(s))
}

/// The components of `s` after those of `base`, each as text.
pub open spec fn relative_parts(s: Seq<u8>, base: Seq<u8>) -> Seq<Seq<char>> {
    Seq::new(
        (components(s).len() - components(base).len()) as nat,
        |i: int| path_text(components(s)[components(base).len() + i]),
    )
}

/// The part of `s` from the first component after those of `base` to the end of
/// its last component; empty when no component is left.
pub open spec fn relative_bytes(s: Seq<u8>, base: Seq<u8>) -> Seq<u8> {
    let places = component_places(s);
    let n = components(base).len();
    if n < places.len() {
        s.subrange(places[n as int].0, places.last().1)
    } else {
        Seq::empty()
    }
}

/// `s` relative to `base`, or `s` itself when it does not lie under `base`.
pub open spec fn relative_or_whole(s: Seq<u8>, base: Seq<u8>) -> Seq<u8> {
    if under(s, base) {
        relative_bytes(s, base)
    } else {
        s
    }
}

/// `tail` appended to `s` as a path: an absolute `tail` stands alone, otherwise
/// a `/` separates the two unless `s` is empty or ends with one.
pub open spec fn path_join(s: Seq<u8>, tail: Seq<u8>) -> Seq<u8> {
    if tail.len() > 0 && tail[0] == SLASH {
        tail
    } else if s.len() == 0 || s.last() == SLASH {
        s + tail
    } else {
        s.push(SLASH) + tail
    }
}

proof fn lemma_run_end_bounds(s: Seq<u8>, from: int)
    requires
        0 <= from <= s.len(),
    ensures
        from <= run_end(s, from) <= s.len(),
        run_end(s, from) < s.len() ==> s[run_end(s, from)] == SLASH,
        forall|i: int| from <= i < run_end(s, from) ==> s[i] != SLASH,
    decreases s.len() - from,
{
    if from < s.len() && s[from] != SLASH {
        lemma_run_end_bounds(s, from + 1);
    }
}

proof fn lemma_named_runs_in_order(s: Seq<u8>, from: int)
    requires
        0 <= from,
    ensures
        forall|i: int|
            0 <= i < named_runs(s, from).len() ==> {
                let place = #[trigger] named_runs(s, from)[i];
                from <= place.0 < place.1 <= s.len()
            },
        forall|i: int, j: int|
            0 <= i <= j < named_runs(s, from).len() ==> (#[trigger] named_runs(s, from)[i]).0 <= (
            #[trigger] named_runs(s, from)[j]).0,
    decreases s.len() - from,
{
    if from <= s.len() {
        lemma_run_end_bounds(s, from);
        let to = run_end(s, from);
        let all = named_runs(s, from);
        if to < s.len() {
            let rest = named_runs(s, to + 1);
            lemma_named_runs_in_order(s, to + 1);
            let skipped: int = if names_nothing(s, from, to) {
                0
            } else {
                1
            };
            assert(all.len() == rest.len() + skipped);
            assert(forall|i: int| skipped <= i < all.len() ==> all[i] == #[trigger] rest[i - skipped]);
            assert forall|i: int| 0 <= i < all.len() implies ({
                let place = #[trigger] all[i];
                from <= place.0 < place.1 <= s.len()
            }) by {
                if i >= skipped {
                    assert(all[i] == rest[i - skipped]);
                }
            }
            assert forall|i: int, j: int| 0 <= i <= j < all.len() implies (#[trigger] all[i]).0 <= (
            #[trigger] all[j]).0 by {
                if i >= skipped {
                    assert(rest[i - skipped].0 <= rest[j - skipped].0);
                }
            }
        }
    }
}

proof fn lemma_component_places_in_order(s: Seq<u8>)
    ensures
        forall|i: int|
            0 <= i < component_places(s).len() ==> {
                let place = #[trigger] component_places(s)[i];
                0 <= place.0 < place.1 <= s.len()
            },
        forall|i: int, j: int|
            0 <= i <= j < component_places(s).len() ==> (#[trigger] component_places(s)[i]).0 <= (
            #[trigger] component_places(s)[j]).0,
{
    lemma_named_runs_in_order(s, 0);
}

proof fn lemma_named_runs_hold_no_slash(s: Seq<u8>, from: int)
    requires
        0 <= from,
    ensures
        forall|i: int, k: int|
            #![trigger named_runs(s, from)[i], s[k]]
            0 <= i < named_runs(s, from).len() && named_runs(s, from)[i].0 <= k < named_runs(
                s,
                from,
            )[i].1 ==> s[k] != SLASH,
    decreases s.len() - from,
{
    if from <= s.len() {
        lemma_run_end_bounds(s, from);
        let to = run_end(s, from);
        let all = named_runs(s, from);
        if to < s.len() {
            let rest = named_runs(s, to + 1);
            lemma_named_runs_hold_no_slash(s, to + 1);
            let skipped: int = if names_nothing(s, from, to) {
                0
            } else {
                1
            };
            assert forall|i: int, k: int|
                #![trigger all[i], s[k]]
                0 <= i < all.len() && all[i].0 <= k < all[i].1 implies s[k] != SLASH by {
                if i >= skipped {
                    assert(all[i] == rest[i - skipped]);
                }
            }
        }
    }
}

/// A path that is not empty has a component.
pub proof fn lemma_some_component(s: Seq<u8>)
    requires
        s.len() > 0,
    ensures
        components(s).len() > 0,
{
    lemma_run_end_bounds(s, 0);
}

/// Only the first component of a path can hold a `/`.
pub proof fn lemma_later_components_hold_no_slash(s: Seq<u8>, i: int)
    requires
        0 < i < components(s).len(),
    ensures
        !components(s)[i].contains(SLASH),
{
    lemma_component_places_in_order(s);
    lemma_named_runs_hold_no_slash(s, 0);
    let place = component_places(s)[i];
    let shift: int = if has_lead(s) {
        1
    } else {
        0
    };
    assert(place == named_runs(s, 0)[i - shift]);
    let part = components(s)[i];
    assert forall|k: int| 0 <= k < part.len() implies part[k] != SLASH by {
        assert(part[k] == s[place.0 + k]);
    }
}

/// Text that bytes without a `/` encode holds no `/`.
pub proof fn lemma_decoded_slash(bytes: Seq<u8>)
    requires
        valid_utf8(bytes),
        !bytes.contains(SLASH),
    ensures
        !decode_utf8(bytes).contains('/'),
    decreases bytes.len(),
{
    if bytes.len() > 0 {
        let rest = vstd::utf8::pop_first_scalar(bytes);
        assert(forall|k: int| 0 <= k < rest.len() ==> bytes.contains(#[trigger] rest[k]));
        lemma_decoded_slash(rest);
        let first = vstd::utf8::decode_first_scalar(bytes) as char;
        assert(bytes.contains(bytes[0]));
        if first == '/' {
            vstd::utf8::decode_utf8_first_scalar(bytes);
            assert(47u32 & 0x7f == 47u32) by (bit_vector);
            assert(vstd::utf8::encode_scalar(47u32)[0] == SLASH);
            assert(vstd::utf8::take_first_scalar(bytes)[0] == bytes[0]);
        }
        let whole = decode_utf8(bytes);
        let tail = decode_utf8(rest);
        assert forall|k: int| 0 <= k < whole.len() implies whole[k] != '/' by {
            if k > 0 {
                assert(whole[k] == tail[k - 1]);
                assert(tail.contains(tail[k - 1]));
            }
        }
    }
}

/// UTF-8 cut where no character is cut is UTF-8 on both sides.
proof fn lemma_utf8_cut(s: Seq<u8>, at: int)
    requires
        valid_utf8(s),
        0 <= at <= s.len(),
        at < s.len() ==> !is_continuation_byte(s[at]),
    ensures
        valid_utf8(s.take(at)),
        valid_utf8(s.skip(at)),
    decreases s.len(),
{
    if at == 0 {
        assert(s.skip(0) =~= s);
    } else {
        let size = length_of_first_scalar(s);
        assert(size <= at);
        let rest = pop_first_scalar(s);
        lemma_utf8_cut(rest, at - size);
        let front = s.take(at);
        assert(forall|i: int| 0 <= i < at ==> front[i] == s[i]);
        assert(pop_first_scalar(front) =~= rest.take(at - size));
        assert(s.skip(at) =~= rest.skip(at - size));
    }
}

/// Every run between slashes starts at the start or behind a slash, and ends at
/// the end or before one.
proof fn lemma_named_runs_lie_between_slashes(s: Seq<u8>, from: int)
    requires
        0 <= from,
        0 < from <= s.len() ==> s[from - 1] == SLASH,
    ensures
        forall|i: int|
            0 <= i < named_runs(s, from).len() ==> {
                let place = #[trigger] named_runs(s, from)[i];
                &&& 0 <= place.0 < place.1 <= s.len()
                &&& place.0 > 0 ==> s[place.0 - 1] == SLASH
                &&& place.1 < s.len() ==> s[place.1] == SLASH
            },
    decreases s.len() - from,
{
    if from <= s.len() {
        lemma_run_end_bounds(s, from);
        let to = run_end(s, from);
        let all = named_runs(s, from);
        if to < s.len() {
            let rest = named_runs(s, to + 1);
            lemma_named_runs_lie_between_slashes(s, to + 1);
            let skipped: int = if names_nothing(s, from, to) {
                0
            } else {
                1
            };
            assert forall|i: int| 0 <= i < all.len() implies ({
                let place = #[trigger] all[i];
                &&& 0 <= place.0 < place.1 <= s.len()
                &&& place.0 > 0 ==> s[place.0 - 1] == SLASH
                &&& place.1 < s.len() ==> s[place.1] == SLASH
            }) by {
                if i >= skipped {
                    assert(all[i] == rest[i - skipped]);
                }
            }
        }
    }
}

/// Every component of a path that is UTF-8 is UTF-8.
pub proof fn lemma_components_are_utf8(s: Seq<u8>, i: int)
    requires
        valid_utf8(s),
        0 <= i < components(s).len(),
    ensures
        valid_utf8(components(s)[i]),
{
    lemma_named_runs_lie_between_slashes(s, 0);
    let place = component_places(s)[i];
    let part = components(s)[i];
    if has_lead(s) && i == 0 {
        assert(part.len() == 1 && part[0] == s[0]);
        assert(pop_first_scalar(part) =~= Seq::<u8>::empty());
        assert(47u8 & 0x7f == 47u8) by (bit_vector);
        assert(46u8 & 0x7f == 46u8) by (bit_vector);
        assert(valid_utf8(Seq::<u8>::empty()));
    } else {
        let shift: int = if has_lead(s) {
            1
        } else {
            0
        };
        assert(place == named_runs(s, 0)[i - shift]);
        let tail = s.skip(place.0);
        if place.0 > 0 {
            lemma_utf8_cut(s, place.0 - 1);
            let with_slash = s.skip(place.0 - 1);
            assert(with_slash[0] == SLASH);
            assert(pop_first_scalar(with_slash) =~= tail);
        } else {
            assert(tail =~= s);
        }
        let size = place.1 - place.0;
        if size < tail.len() {
            assert(tail[size] == s[place.1]);
        }
        lemma_utf8_cut(tail, size);
        assert(part =~= tail.take(size));
    }
}

/// Places moved by `by` bytes.
spec fn moved(places: Seq<(int, int)>, by: int) -> Seq<(int, int)> {
    Seq::new(places.len(), |i: int| (places[i].0 + by, places[i].1 + by))
}

proof fn lemma_run_end_behind(base: Seq<u8>, rel: Seq<u8>, from: int)
    requires
        0 <= from <= rel.len(),
    ensures
        run_end(base + rel, base.len() + from) == base.len() + run_end(rel, from),
    decreases rel.len() - from,
{
    if from < rel.len() {
        assert((base + rel)[base.len() + from] == rel[from]);
        if rel[from] != SLASH {
            lemma_run_end_behind(base, rel, from + 1);
        }
    }
}

proof fn lemma_named_runs_behind(base: Seq<u8>, rel: Seq<u8>, from: int)
    requires
        0 <= from <= rel.len(),
    ensures
        named_runs(base + rel, base.len() + from) == moved(
            named_runs(rel, from),
            base.len() as int,
        ),
    decreases rel.len() - from,
{
    let whole = base + rel;
    let n = base.len() as int;
    lemma_run_end_bounds(rel, from);
    lemma_run_end_behind(base, rel, from);
    let to = run_end(rel, from);
    if from < rel.len() {
        assert(whole[n + from] == rel[from]);
    }
    if to < rel.len() {
        lemma_named_runs_behind(base, rel, to + 1);
    }
    assert(names_nothing(whole, n + from, n + to) == names_nothing(rel, from, to));
    assert(named_runs(whole, n + from) =~= moved(named_runs(rel, from), n));
}

proof fn lemma_run_end_before(base: Seq<u8>, rel: Seq<u8>, from: int)
    requires
        0 <= from <= base.len(),
        run_end(base, from) < base.len(),
    ensures
        run_end(base + rel, from) == run_end(base, from),
    decreases base.len() - from,
{
    assert((base + rel)[from] == base[from]);
    if base[from] != SLASH {
        lemma_run_end_before(base, rel, from + 1);
    }
}

/// Behind a slash, runs are found as if nothing stood before.
proof fn lemma_named_runs_join(base: Seq<u8>, rel: Seq<u8>, from: int)
    requires
        base.len() > 0,
        base.last() == SLASH,
        0 <= from <= base.len(),
    ensures
        named_runs(base + rel, from) == named_runs(base, from) + moved(
            named_runs(rel, 0),
            base.len() as int,
        ),
    decreases base.len() - from,
{
    let whole = base + rel;
    let n = base.len() as int;
    let behind = moved(named_runs(rel, 0), n);
    if from == n {
        lemma_named_runs_behind(base, rel, 0);
        assert(named_runs(base, from) =~= Seq::empty());
        assert(named_runs(base, from) + behind =~= behind);
    } else {
        lemma_run_end_bounds(base, from);
        let to = run_end(base, from);
        assert(to < n);
        lemma_run_end_before(base, rel, from);
        lemma_named_runs_join(base, rel, to + 1);
        assert(whole[from] == base[from]);
        assert(names_nothing(whole, from, to) == names_nothing(base, from, to));
        assert(named_runs(whole, from) =~= named_runs(base, from) + behind);
    }
}

/// A slash at the end adds no run.
proof fn lemma_named_runs_closed(s: Seq<u8>, from: int)
    requires
        0 <= from <= s.len(),
    ensures
        named_runs(s.push(SLASH), from) == named_runs(s, from),
    decreases s.len() - from,
{
    let closed_s = s.push(SLASH);
    lemma_run_end_bounds(s, from);
    lemma_run_end_closed(s, from);
    let to = run_end(s, from);
    if from < s.len() {
        assert(closed_s[from] == s[from]);
    }
    assert(names_nothing(closed_s, from, to) == names_nothing(s, from, to));
    if to < s.len() {
        lemma_named_runs_closed(s, to + 1);
    } else {
        assert(run_end(closed_s, to + 1) == to + 1);
        assert(named_runs(closed_s, to + 1) =~= Seq::empty());
    }
    assert(named_runs(closed_s, from) =~= named_runs(s, from));
}

proof fn lemma_run_end_closed(s: Seq<u8>, from: int)
    requires
        0 <= from <= s.len(),
    ensures
        run_end(s.push(SLASH), from) == run_end(s, from),
    decreases s.len() - from,
{
    if from < s.len() {
        assert(s.push(SLASH)[from] == s[from]);
        if s[from] != SLASH {
            lemma_run_end_closed(s, from + 1);
        }
    }
}

/// The names in a relative path.
pub open spec fn names_in(rel: Seq<u8>) -> Seq<Seq<u8>> {
    Seq::new(
        named_runs(rel, 0).len(),
        |i: int| rel.subrange(named_runs(rel, 0)[i].0, named_runs(rel, 0)[i].1),
    )
}

/// A relative path joined to a path adds its names to the components, and
/// nothing else.
pub proof fn law_join_adds_components(root: Seq<u8>, rel: Seq<u8>)
    requires
        root.len() > 0,
        rel.len() > 0 ==> rel[0] != SLASH,
    ensures
        components(path_join(root, rel)) == components(root) + names_in(rel),
{
    let base = if root.last() == SLASH {
        root
    } else {
        root.push(SLASH)
    };
    let whole = base + rel;
    let n = base.len() as int;
    assert(path_join(root, rel) == whole);
    if root.last() != SLASH {
        lemma_named_runs_closed(root, 0);
    }
    lemma_named_runs_join(base, rel, 0);
    assert(whole[0] == root[0]);
    if root.len() > 1 {
        assert(whole[1] == root[1]);
    }
    assert(has_lead(whole) == has_lead(root));
    let behind = moved(named_runs(rel, 0), n);
    assert(component_places(whole) =~= component_places(root) + behind);
    lemma_component_places_in_order(root);
    lemma_named_runs_in_order(rel, 0);
    let m = component_places(root).len() as int;
    assert forall|i: int| 0 <= i < components(whole).len() implies #[trigger] components(whole)[i]
        == (components(root) + names_in(rel))[i] by {
        let place = component_places(whole)[i];
        if i < m {
            assert(place == component_places(root)[i]);
            assert(whole.subrange(place.0, place.1) =~= root.subrange(place.0, place.1));
        } else {
            let own = named_runs(rel, 0)[i - m];
            assert(place == behind[i - m]);
            assert(whole.subrange(place.0, place.1) =~= rel.subrange(own.0, own.1));
        }
    }
    assert(components(whole) =~= components(root) + names_in(rel));
}

/// Whether two byte slices hold the same bytes.
fn same_bytes(a: &[u8], b: &[u8]) -> (r: bool)
    ensures
        r == (a@ == b@),
{
    if a.len() != b.len() {
        return false;
    }
    let mut i: usize = 0;
    while i < a.len()
        invariant
            i <= a@.len(),
            a@.len() == b@.len(),
            a@.take(i as int) =~= b@.take(i as int),
        decreases a@.len() - i,
    {
        if a[i] != b[i] {
            return false;
        }
        assert(a@.take(i + 1) =~= a@.take(i as int).push(a@[i as int]));
        assert(b@.take(i + 1) =~= b@.take(i as int).push(b@[i as int]));
        i += 1;
    }
    assert(a@.take(a@.len() as int) =~= a@);
    assert(b@.take(b@.len() as int) =~= b@);
    true
}

/// A copy of `bytes[from..to]`.
fn copy_range(bytes: &[u8], from: usize, to: usize) -> (r: Vec<u8>)
    requires
        from <= to <= bytes@.len(),
    ensures
        r@ == bytes@.subrange(from as int, to as int),
{
    let mut out: Vec<u8> = Vec::new();
    let mut i: usize = from;
    while i < to
        invariant
            from <= i <= to <= bytes@.len(),
            out@ =~= bytes@.subrange(from as int, i as int),
        decreases to - i,
    {
        out.push(bytes[i]);
        i += 1;
    }
    out
}

/// A path on a Unix host: any bytes, not necessarily UTF-8.
#[derive(Debug)]
pub struct HostPath {
    pub bytes: Vec<u8>,
}

impl View for HostPath {
    type V = Seq<u8>;

    open spec fn view(&self) -> Seq<u8> {
        self.bytes@
    }
}

impl Clone for HostPath {
    fn clone(&self) -> (r: Self)
        ensures
            r@ == self@,
    {
        HostPath { bytes: copy_range(self.bytes.as_slice(), 0, self.bytes.len()) }
    }
}

impl HostPath {
    /// The path that `text` spells.
    pub fn from_text(text: &str) -> (r: Self)
        ensures
            r@ == encode_utf8(text@),
    {
        let bytes = text.as_bytes();
        HostPath { bytes: copy_range(bytes, 0, bytes.len()) }
    }

    /// The path with no bytes.
    pub fn empty() -> (r: Self)
        ensures
            r@ == Seq::<u8>::empty(),
    {
        HostPath { bytes: Vec::new() }
    }

    /// Whether two paths have the same components, however they are spelled.
    pub fn same_path(&self, other: &HostPath) -> (r: bool)
        ensures
            r == (components(self@) == components(other@)),
    {
        let r = self.is_under(other) && other.is_under(self);
        proof {
            let a = components(self@);
            let b = components(other@);
            if r {
                assert(a.len() == b.len());
                assert(a =~= b);
            } else if a == b {
                assert(a =~= a.subrange(0, a.len() as int));
            }
        }
        r
    }

    pub fn is_empty(&self) -> (r: bool)
        ensures
            r == (self@.len() == 0),
    {
        self.bytes.len() == 0
    }

    /// Whether the path starts at the root.
    pub fn is_absolute(&self) -> (r: bool)
        ensures
            r == (self@.len() > 0 && self@[0] == SLASH),
    {
        self.bytes.len() > 0 && self.bytes[0] == SLASH
    }

    /// The path as text, invalid sequences replaced.
    pub fn to_text(&self) -> (r: String)
        ensures
            r@ == path_text(self@),
    {
        decode_lossy(self.bytes.as_slice())
    }

    /// The places of the components, in order.
    fn places(&self) -> (r: Vec<(usize, usize)>)
        ensures
            r@.len() == component_places(self@).len(),
            forall|i: int|
                0 <= i < r@.len() ==> (#[trigger] r@[i]).0 == component_places(self@)[i].0
                    && r@[i].1 == component_places(self@)[i].1,
    {
        let s = self.bytes.as_slice();
        let mut out: Vec<(usize, usize)> = Vec::new();
        let ghost mut found: Seq<(int, int)> = Seq::empty();
        if s.len() > 0 && (s[0] == SLASH || (s[0] == DOT && (s.len() == 1 || s[1] == SLASH))) {
            out.push((0, 1));
            proof {
                found = seq![(0int, 1int)];
            }
        }
        assert(found + named_runs(s@, 0) =~= component_places(s@));
        let mut done: bool = false;
        let mut from: usize = 0;
        while !done
            invariant
                s@ == self@,
                from <= s@.len(),
                out@.len() == found.len(),
                forall|i: int|
                    0 <= i < out@.len() ==> (#[trigger] out@[i]).0 == found[i].0 && out@[i].1
                        == found[i].1,
                !done ==> found + named_runs(s@, from as int) == component_places(s@),
                done ==> found == component_places(s@),
            decreases (if done { 0int } else { 1int }), s@.len() - from,
        {
            let mut to: usize = from;
            while to < s.len() && s[to] != SLASH
                invariant
                    from <= to <= s@.len(),
                    run_end(s@, from as int) == run_end(s@, to as int),
                decreases s@.len() - to,
            {
                to += 1;
            }
            assert(to == run_end(s@, from as int));
            let ghost old_found = found;
            if !(from == to || (to == from + 1 && s[from] == DOT)) {
                out.push((from, to));
                proof {
                    found = found.push((from as int, to as int));
                }
            }
            let ghost rest = if to < s@.len() {
                named_runs(s@, to + 1)
            } else {
                Seq::empty()
            };
            assert(found + rest =~= old_found + named_runs(s@, from as int));
            if to < s.len() {
                from = to + 1;
            } else {
                done = true;
                assert(found + rest =~= found);
            }
        }
        out
    }

    /// The last component as text, when it is an ordinary name in UTF-8.
    pub fn file_name_text(&self) -> (r: Option<String>)
        ensures
            crate::text::view_opt(r) == file_name_text(self@),
    {
        let places = self.places();
        proof {
            lemma_component_places_in_order(self@);
        }
        if places.len() == 0 {
            return None;
        }
        let (from, to) = places[places.len() - 1];
        let name = copy_range(self.bytes.as_slice(), from, to);
        assert(name@ == components(self@).last());
        let root = name.len() == 1 && name[0] == SLASH;
        let here = name.len() == 1 && name[0] == DOT;
        let parent = name.len() == 2 && name[0] == DOT && name[1] == DOT;
        assert(root == (name@ =~= seq![SLASH]));
        assert(here == (name@ =~= seq![DOT]));
        assert(parent == (name@ =~= seq![DOT, DOT]));
        if root || here || parent {
            return None;
        }
        decode_strict(name.as_slice())
    }

    /// Whether the components of `base` are the first components here.
    fn is_under(&self, base: &HostPath) -> (r: bool)
        ensures
            r == under(self@, base@),
    {
        let own = self.places();
        let others = base.places();
        proof {
            lemma_component_places_in_order(self@);
            lemma_component_places_in_order(base@);
        }
        if others.len() > own.len() {
            return false;
        }
        let mut i: usize = 0;
        while i < others.len()
            invariant
                i <= others@.len() <= own@.len(),
                own@.len() == components(self@).len(),
                others@.len() == components(base@).len(),
                forall|k: int|
                    0 <= k < own@.len() ==> (#[trigger] own@[k]).0 == component_places(self@)[k].0
                        && own@[k].1 == component_places(self@)[k].1 && own@[k].0 < own@[k].1
                        <= self@.len(),
                forall|k: int|
                    0 <= k < others@.len() ==> (#[trigger] others@[k]).0 == component_places(
                        base@,
                    )[k].0 && others@[k].1 == component_places(base@)[k].1 && others@[k].0
                        < others@[k].1 <= base@.len(),
                forall|k: int|
                    0 <= k < i ==> #[trigger] components(self@)[k] == components(base@)[k],
            decreases others@.len() - i,
        {
            let (a, b) = own[i];
            let (c, d) = others[i];
            let mine = copy_range(self.bytes.as_slice(), a, b);
            let theirs = copy_range(base.bytes.as_slice(), c, d);
            assert(mine@ == components(self@)[i as int]);
            assert(theirs@ == components(base@)[i as int]);
            if !same_bytes(mine.as_slice(), theirs.as_slice()) {
                assert(components(self@).take(components(base@).len() as int)[i as int]
                    != components(base@)[i as int]);
                return false;
            }
            i += 1;
        }
        assert(components(base@) =~= components(self@).subrange(
            0,
            components(base@).len() as int,
        ));
        true
    }

    /// The components after those of `base`, each as text; nothing when the path
    /// does not lie under `base`.
    pub fn relative_parts(&self, base: &HostPath) -> (r: Option<Vec<String>>)
        ensures
            r is Some <==> under(self@, base@),
            r matches Some(parts) ==> views(parts@) == relative_parts(self@, base@),
    {
        if !self.is_under(base) {
            return None;
        }
        let own = self.places();
        let skipped = base.places().len();
        proof {
            lemma_component_places_in_order(self@);
        }
        let mut out: Vec<String> = Vec::new();
        let mut i: usize = skipped;
        assert(views(out@) =~= relative_parts(self@, base@).take(0));
        while i < own.len()
            invariant
                skipped <= i <= own@.len(),
                skipped == components(base@).len(),
                own@.len() == components(self@).len(),
                forall|k: int|
                    0 <= k < own@.len() ==> (#[trigger] own@[k]).0 == component_places(self@)[k].0
                        && own@[k].1 == component_places(self@)[k].1 && own@[k].0 < own@[k].1
                        <= self@.len(),
                out@.len() == i - skipped,
                views(out@) =~= relative_parts(self@, base@).take(i - skipped),
            decreases own@.len() - i,
        {
            let (a, b) = own[i];
            let part = copy_range(self.bytes.as_slice(), a, b);
            assert(part@ == components(self@)[i as int]);
            out.push(decode_lossy(part.as_slice()));
            i += 1;
        }
        assert(views(out@) =~= relative_parts(self@, base@));
        Some(out)
    }

    /// The path relative to `root`, or the whole path when it lies elsewhere, as
    /// text.
    pub fn relative_text(&self, root: &HostPath) -> (r: String)
        ensures
            r@ == path_text(relative_or_whole(self@, root@)),
    {
        if !self.is_under(root) {
            return self.to_text();
        }
        let own = self.places();
        let skipped = root.places().len();
        proof {
            lemma_component_places_in_order(self@);
        }
        if skipped < own.len() {
            let from = own[skipped].0;
            let to = own[own.len() - 1].1;
            let part = copy_range(self.bytes.as_slice(), from, to);
            decode_lossy(part.as_slice())
        } else {
            let nothing: Vec<u8> = Vec::new();
            decode_lossy(nothing.as_slice())
        }
    }

    /// `tail` appended as a path.
    pub fn join(&self, tail: &str) -> (r: HostPath)
        ensures
            r@ == path_join(self@, encode_utf8(tail@)),
    {
        let extra = tail.as_bytes();
        if extra.len() > 0 && extra[0] == SLASH {
            return HostPath { bytes: copy_range(extra, 0, extra.len()) };
        }
        let mut bytes = copy_range(self.bytes.as_slice(), 0, self.bytes.len());
        if bytes.len() > 0 && bytes[bytes.len() - 1] != SLASH {
            bytes.push(SLASH);
        }
        let mut more = copy_range(extra, 0, extra.len());
        bytes.append(&mut more);
        assert(bytes@ =~= path_join(self@, encode_utf8(tail@)));
        HostPath { bytes }
    }
}

/// A name that can stand between slashes: not empty, without a slash, and not the
/// single dot that names nothing.
pub open spec fn plain_name(name: Seq<u8>) -> bool {
    name.len() > 0 && !name.contains(SLASH) && name != seq![DOT]
}

/// The relative path that spells the names, with a slash between neighbours.
pub open spec fn spelled(names: Seq<Seq<u8>>) -> Seq<u8>
    decreases names.len(),
{
    if names.len() == 0 {
        Seq::empty()
    } else if names.len() == 1 {
        names[0]
    } else {
        spelled(names.drop_last()).push(SLASH) + names.last()
    }
}

proof fn lemma_plain_run(name: Seq<u8>)
    requires
        plain_name(name),
    ensures
        named_runs(name, 0) =~= seq![(0int, name.len() as int)],
{
    lemma_run_end_bounds(name, 0);
    let to = run_end(name, 0);
    if to < name.len() {
        assert(name.contains(name[to]));
    }
    if name.len() == 1 && name[0] == DOT {
        assert(name =~= seq![DOT]);
    }
}

proof fn lemma_spelled_runs(names: Seq<Seq<u8>>)
    requires
        names.len() > 0,
        forall|i: int| 0 <= i < names.len() ==> plain_name(#[trigger] names[i]),
    ensures
        ({
            let rel = spelled(names);
            let runs = named_runs(rel, 0);
            &&& rel.len() > 0
            &&& rel[0] != SLASH
            &&& rel.last() != SLASH
            &&& runs.len() == names.len()
            &&& runs[0].0 == 0
            &&& runs.last().1 == rel.len()
            &&& names_in(rel) =~= names
        }),
    decreases names.len(),
{
    let rel = spelled(names);
    let runs = named_runs(rel, 0);
    let last = names.last();
    assert(plain_name(names[names.len() - 1]));
    lemma_plain_run(last);
    assert(last.contains(last[0]));
    assert(last.contains(last.last()));
    if names.len() == 1 {
        assert(rel == last);
        assert(rel.subrange(0, rel.len() as int) =~= rel);
        assert(names_in(rel) =~= names);
    } else {
        let front = names.drop_last();
        assert forall|i: int| 0 <= i < front.len() implies plain_name(#[trigger] front[i]) by {
            assert(plain_name(names[i]));
        }
        lemma_spelled_runs(front);
        let before = spelled(front);
        let base = before.push(SLASH);
        let n = base.len() as int;
        lemma_named_runs_closed(before, 0);
        lemma_named_runs_join(base, last, 0);
        assert(rel == base + last);
        assert(runs =~= named_runs(before, 0).push((n, n + last.len())));
        lemma_named_runs_in_order(before, 0);
        assert(rel[0] == before[0]);
        assert(rel.last() == last.last());
        assert forall|i: int| 0 <= i < names.len() implies #[trigger] names_in(rel)[i] == names[i] by {
            if i < front.len() {
                let place = named_runs(before, 0)[i];
                assert(runs[i] == place);
                assert(rel.subrange(place.0, place.1) =~= before.subrange(place.0, place.1));
                assert(names_in(before)[i] == front[i]);
            } else {
                assert(rel.subrange(n, n + last.len()) =~= last);
            }
        }
        assert(names_in(rel) =~= names);
    }
}

/// The components of a relative path are the names between its slashes.
pub proof fn law_components_of_a_relative_path(names: Seq<Seq<u8>>)
    requires
        names.len() > 0,
        forall|i: int| 0 <= i < names.len() ==> plain_name(#[trigger] names[i]),
    ensures
        components(spelled(names)) == names,
{
    let rel = spelled(names);
    lemma_spelled_runs(names);
    if has_lead(rel) {
        reveal_with_fuel(run_end, 2);
        assert(rel[0] == DOT);
        assert(run_end(rel, 0) == 1);
        assert(names_nothing(rel, 0, 1));
        if rel.len() > 1 {
            assert(named_runs(rel, 0) == named_runs(rel, 2));
            lemma_named_runs_in_order(rel, 2);
            assert(named_runs(rel, 2)[0].0 >= 2);
        } else {
            assert(named_runs(rel, 0) =~= Seq::empty());
        }
    }
    assert(!has_lead(rel));
    assert(components(rel) =~= names_in(rel));
}

/// The components of an absolute path are the root and the names between its
/// slashes. Doubled slashes, single dots and a slash at the end add none.
pub proof fn law_components_of_an_absolute_path(names: Seq<Seq<u8>>)
    requires
        names.len() > 0,
        forall|i: int| 0 <= i < names.len() ==> plain_name(#[trigger] names[i]),
    ensures
        components(seq![SLASH]) == seq![seq![SLASH]],
        components(seq![SLASH] + spelled(names)) == seq![seq![SLASH]] + names,
        components(seq![SLASH] + spelled(names) + seq![SLASH]) == seq![seq![SLASH]] + names,
        components(seq![SLASH, SLASH] + spelled(names)) == seq![seq![SLASH]] + names,
        components(seq![SLASH, DOT, SLASH] + spelled(names)) == seq![seq![SLASH]] + names,
{
    let rel = spelled(names);
    lemma_spelled_runs(names);
    lemma_lone_lead(seq![SLASH]);
    lemma_lone_lead(seq![SLASH, SLASH]);
    lemma_lone_lead(seq![SLASH, DOT, SLASH]);
    law_join_adds_components(seq![SLASH], rel);
    law_join_adds_components(seq![SLASH, SLASH], rel);
    law_join_adds_components(seq![SLASH, DOT, SLASH], rel);
    assert(path_join(seq![SLASH], rel) =~= seq![SLASH] + rel);
    assert(path_join(seq![SLASH, SLASH], rel) =~= seq![SLASH, SLASH] + rel);
    assert(path_join(seq![SLASH, DOT, SLASH], rel) =~= seq![SLASH, DOT, SLASH] + rel);
    let whole = seq![SLASH] + rel;
    law_join_adds_components(whole, Seq::empty());
    assert(path_join(whole, Seq::empty()) =~= whole + seq![SLASH]);
    assert(run_end(Seq::<u8>::empty(), 0) == 0);
    assert(names_in(Seq::empty()) =~= Seq::empty());
    assert(components(whole) + names_in(Seq::empty()) =~= components(whole));
}

proof fn lemma_lone_lead(s: Seq<u8>)
    requires
        s == seq![SLASH] || s == seq![SLASH, SLASH] || s == seq![SLASH, DOT, SLASH] || s == seq![DOT]
            || s == seq![DOT, SLASH],
    ensures
        components(s) =~= seq![seq![s[0]]],
{
    reveal_with_fuel(named_runs, 5);
    reveal_with_fuel(run_end, 3);
    assert(named_runs(s, 0) =~= Seq::empty());
    assert(s.subrange(0, 1) =~= seq![s[0]]);
}

/// A tail is joined behind one slash, which is added where it is missing. To an
/// empty path nothing is added, and an absolute tail stands alone.
pub proof fn law_join_puts_one_slash_between(s: Seq<u8>, tail: Seq<u8>)
    requires
        tail.len() > 0 ==> tail[0] != SLASH,
        s.len() > 0 ==> s.last() != SLASH,
    ensures
        s.len() > 0 ==> path_join(s, tail) == s + seq![SLASH] + tail,
        path_join(s + seq![SLASH], tail) == s + seq![SLASH] + tail,
        path_join(Seq::empty(), tail) == tail,
        path_join(s, seq![SLASH] + tail) == seq![SLASH] + tail,
{
    assert(s.push(SLASH) =~= s + seq![SLASH]);
    assert(Seq::<u8>::empty() + tail =~= tail);
}

/// The file name of a path is the name joined last, unless that is `..`; the root
/// has none.
pub proof fn law_file_name_is_the_name_joined_last(root: Seq<u8>, name: Seq<u8>)
    requires
        root.len() > 0,
        plain_name(name),
    ensures
        name != seq![DOT, DOT] ==> file_name(path_join(root, name)) == Some(name),
        file_name(path_join(root, seq![DOT, DOT])) is None,
        file_name(seq![SLASH]) is None,
{
    lemma_plain_run(name);
    assert(name.contains(name[0]));
    assert(names_in(name) =~= seq![name]) by {
        assert(name.subrange(0, name.len() as int) =~= name);
    }
    law_join_adds_components(root, name);
    assert(components(path_join(root, name)).last() == name);
    if name == seq![SLASH] {
        assert(name.contains(SLASH));
    }
    let parent = seq![DOT, DOT];
    assert(!parent.contains(SLASH));
    assert(plain_name(parent)) by {
        assert(parent.len() != seq![DOT].len());
    }
    lemma_plain_run(parent);
    assert(names_in(parent) =~= seq![parent]) by {
        assert(parent.subrange(0, 2) =~= parent);
    }
    law_join_adds_components(root, parent);
    assert(components(path_join(root, parent)).last() == parent);
    lemma_lone_lead(seq![SLASH]);
    assert(components(seq![SLASH]).last() == seq![SLASH]);
}

/// A file name that is UTF-8 is the text it encodes.
pub proof fn law_file_name_text_is_the_name(root: Seq<u8>, name: Seq<char>)
    requires
        root.len() > 0,
        plain_name(encode_utf8(name)),
        encode_utf8(name) != seq![DOT, DOT],
    ensures
        file_name_text(path_join(root, encode_utf8(name))) == Some(name),
        path_text(encode_utf8(name)) == name,
{
    law_file_name_is_the_name_joined_last(root, encode_utf8(name));
    vstd::utf8::encode_utf8_valid_utf8(name);
    vstd::utf8::encode_utf8_decode_utf8(name);
}

/// What was joined to a root comes back relative to it: as bytes, and name by name
/// as text. It lies under the root.
pub proof fn law_relative_undoes_join(root: Seq<u8>, names: Seq<Seq<u8>>)
    requires
        root.len() > 0,
        names.len() > 0,
        forall|i: int| 0 <= i < names.len() ==> plain_name(#[trigger] names[i]),
    ensures
        under(path_join(root, spelled(names)), root),
        relative_or_whole(path_join(root, spelled(names)), root) == spelled(names),
        relative_parts(path_join(root, spelled(names)), root) == Seq::new(
            names.len(),
            |i: int| path_text(names[i]),
        ),
{
    let rel = spelled(names);
    let whole = path_join(root, rel);
    lemma_spelled_runs(names);
    law_join_adds_components(root, rel);
    assert(components(root).is_prefix_of(components(whole)));
    assert(relative_parts(whole, root) =~= Seq::new(names.len(), |i: int| path_text(names[i])));
    let base = if root.last() == SLASH {
        root
    } else {
        root.push(SLASH)
    };
    let n = base.len() as int;
    assert(whole == base + rel);
    if root.last() != SLASH {
        lemma_named_runs_closed(root, 0);
    }
    lemma_named_runs_join(base, rel, 0);
    assert(whole[0] == root[0]);
    if root.len() > 1 {
        assert(whole[1] == root[1]);
    }
    assert(has_lead(whole) == has_lead(root));
    let behind = moved(named_runs(rel, 0), n);
    assert(component_places(whole) =~= component_places(root) + behind);
    let m = components(root).len() as int;
    assert(component_places(whole)[m] == behind[0]);
    assert(component_places(whole).last() == behind.last());
    assert(whole.subrange(n, n + rel.len()) =~= rel);
}

/// A path outside the root stays whole, and one with the root's own components
/// leaves nothing.
pub proof fn law_relative_elsewhere_is_whole(s: Seq<u8>, root: Seq<u8>)
    ensures
        !components(root).is_prefix_of(components(s)) ==> relative_or_whole(s, root) == s,
        components(root) == components(s) ==> relative_or_whole(s, root).len() == 0,
{
    if components(root) == components(s) {
        assert(components(root).is_prefix_of(components(s)));
    }
}

/// A dot at the start of a relative path is a component of its own, and no file name.
pub proof fn law_leading_dot_is_a_component(names: Seq<Seq<u8>>)
    requires
        names.len() > 0,
        forall|i: int| 0 <= i < names.len() ==> plain_name(#[trigger] names[i]),
    ensures
        components(seq![DOT]) == seq![seq![DOT]],
        components(seq![DOT, SLASH] + spelled(names)) == seq![seq![DOT]] + names,
        file_name(seq![DOT]) is None,
        components(Seq::empty()).len() == 0,
{
    let rel = spelled(names);
    lemma_spelled_runs(names);
    lemma_lone_lead(seq![DOT]);
    lemma_lone_lead(seq![DOT, SLASH]);
    law_join_adds_components(seq![DOT, SLASH], rel);
    assert(path_join(seq![DOT, SLASH], rel) =~= seq![DOT, SLASH] + rel);
    assert(components(seq![DOT]).last() == seq![DOT]);
    assert(run_end(Seq::<u8>::empty(), 0) == 0);
}

/// An empty run between slashes names nothing, nor does a single dot.
pub proof fn law_empty_and_dot_runs_name_nothing(rel: Seq<u8>)
    ensures
        names_in(seq![SLASH] + rel) == names_in(rel),
        names_in(seq![DOT, SLASH] + rel) == names_in(rel),
        names_in(rel.push(SLASH)) == names_in(rel),
{
    lemma_names_behind(seq![SLASH], rel);
    lemma_names_behind(seq![DOT, SLASH], rel);
    lemma_named_runs_closed(rel, 0);
    lemma_named_runs_in_order(rel, 0);
    assert forall|i: int| 0 <= i < names_in(rel).len() implies #[trigger] names_in(
        rel.push(SLASH),
    )[i] == names_in(rel)[i] by {
        let place = named_runs(rel, 0)[i];
        assert(rel.push(SLASH).subrange(place.0, place.1) =~= rel.subrange(place.0, place.1));
    }
    assert(names_in(rel.push(SLASH)) =~= names_in(rel));
}

proof fn lemma_names_behind(lead: Seq<u8>, rel: Seq<u8>)
    requires
        lead == seq![SLASH] || lead == seq![DOT, SLASH],
    ensures
        names_in(lead + rel) == names_in(rel),
{
    let whole = lead + rel;
    let n = lead.len() as int;
    reveal_with_fuel(named_runs, 4);
    reveal_with_fuel(run_end, 3);
    assert(named_runs(lead, 0) =~= Seq::empty());
    lemma_named_runs_join(lead, rel, 0);
    let behind = moved(named_runs(rel, 0), n);
    assert(named_runs(whole, 0) =~= behind);
    lemma_named_runs_in_order(rel, 0);
    assert forall|i: int| 0 <= i < names_in(rel).len() implies #[trigger] names_in(whole)[i]
        == names_in(rel)[i] by {
        let place = named_runs(rel, 0)[i];
        assert(named_runs(whole, 0)[i] == behind[i]);
        assert(whole.subrange(n + place.0, n + place.1) =~= rel.subrange(place.0, place.1));
    }
    assert(names_in(whole) =~= names_in(rel));
}

/// A slash at the end of a path changes neither its components nor its file name, nor
/// what is left of it below a root.
pub proof fn law_slash_at_the_end_adds_nothing(s: Seq<u8>, root: Seq<u8>)
    requires
        s.len() > 0,
        s != seq![DOT],
    ensures
        components(s.push(SLASH)) == components(s),
        file_name(s.push(SLASH)) == file_name(s),
        under(s, root) ==> relative_or_whole(s.push(SLASH), root) == relative_or_whole(s, root),
{
    let closed_s = s.push(SLASH);
    lemma_named_runs_closed(s, 0);
    assert(closed_s[0] == s[0]);
    if s.len() > 1 {
        assert(closed_s[1] == s[1]);
    } else if s[0] == DOT {
        assert(s =~= seq![DOT]);
    }
    assert(has_lead(closed_s) == has_lead(s));
    assert(component_places(closed_s) =~= component_places(s));
    lemma_component_places_in_order(s);
    assert forall|i: int| 0 <= i < components(s).len() implies #[trigger] components(closed_s)[i]
        == components(s)[i] by {
        let place = component_places(s)[i];
        assert(closed_s.subrange(place.0, place.1) =~= s.subrange(place.0, place.1));
    }
    assert(components(closed_s) =~= components(s));
    let n = components(root).len() as int;
    if n < component_places(s).len() {
        let from = component_places(s)[n].0;
        let to = component_places(s).last().1;
        assert(component_places(s).last() == component_places(s)[component_places(s).len() - 1]);
        assert(from <= component_places(s).last().0);
        assert(closed_s.subrange(from, to) =~= s.subrange(from, to));
    }
}

/// Bytes that are UTF-8 are shown as the text that they encode, and others as the text
/// that has replacements in it.
pub proof fn law_path_is_shown_as_its_text(text: Seq<char>, bytes: Seq<u8>)
    ensures
        path_text(encode_utf8(text)) == text,
        valid_utf8(bytes) ==> encode_utf8(path_text(bytes)) == bytes,
        !valid_utf8(bytes) ==> path_text(bytes) == lossy_text(bytes),
{
    vstd::utf8::encode_utf8_valid_utf8(text);
    vstd::utf8::encode_utf8_decode_utf8(text);
    if valid_utf8(bytes) {
        vstd::utf8::decode_utf8_encode_utf8(bytes);
    }
}

} // verus!
