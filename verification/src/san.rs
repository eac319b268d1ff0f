//! The sanitization algorithm: classification and span collapse.
//!
//! A single left-to-right scan classifies every code point against the
//! policy. When at least one disallowed code point is found, the whole
//! span from the first through the last disallowed code point is removed
//! — including any allowed characters caught between them. Adversarial
//! payloads interleave invisible characters with benign ones precisely to
//! defeat character-by-character stripping, so the collapse is deliberate.
//! In verbose mode the removed span is replaced by a marker reporting its
//! exact length in UTF-8 bytes.

use vstd::prelude::*;
use vstd::string::StrSliceExecFns;
use vstd::string::StringExecFns;
use vstd::utf8::char_is_scalar;
use vstd::utf8::encode_scalar;
use vstd::utf8::encode_utf8;
use crate::decimal::dec_digits;
use crate::decimal::format_u128;
use crate::decimal::lemma_dec_digits_ascii;
use crate::policy::BASIC_LATIN_HIGH;
use crate::policy::BASIC_LATIN_LOW;
use crate::policy::PolicyView;
use crate::policy::RangePolicy;
use crate::policy::char_allowed;
use crate::policy::cp_forbidden;
use crate::policy::cp_in_ranges;
use crate::policy::ranges_cover;

verus! {

/// Whether every character of `s` is allowed by the policy.
pub open spec fn seq_clean(p: PolicyView, s: Seq<char>) -> bool {
    forall|i: int| 0 <= i < s.len() ==> char_allowed(p, #[trigger] s[i])
}

/// Whether `f` is the index of the first disallowed character of `s`.
pub open spec fn is_first_bad(p: PolicyView, s: Seq<char>, f: int) -> bool {
    &&& 0 <= f < s.len()
    &&& !char_allowed(p, s[f])
    &&& forall|j: int| 0 <= j < f ==> char_allowed(p, #[trigger] s[j])
}

/// Whether `l` is the index of the last disallowed character of `s`.
pub open spec fn is_last_bad(p: PolicyView, s: Seq<char>, l: int) -> bool {
    &&& 0 <= l < s.len()
    &&& !char_allowed(p, s[l])
    &&& forall|j: int| l < j < s.len() ==> char_allowed(p, #[trigger] s[j])
}

/// The index of the first disallowed character of `s`, or `s.len()` when
/// every character is allowed.
pub open spec fn first_bad(p: PolicyView, s: Seq<char>) -> int
    decreases s.len(),
{
    if s.len() == 0 {
        0
    } else if !char_allowed(p, s[0]) {
        0
    } else {
        1 + first_bad(p, s.subrange(1, s.len() as int))
    }
}

/// The index of the last disallowed character of `s`, or `-1` when every
/// character is allowed.
pub open spec fn last_bad(p: PolicyView, s: Seq<char>) -> int
    decreases s.len(),
{
    if s.len() == 0 {
        -1
    } else if !char_allowed(p, s[s.len() - 1]) {
        s.len() - 1
    } else {
        last_bad(p, s.subrange(0, s.len() - 1))
    }
}

/// `first_bad` is `s.len()` exactly on clean strings, and otherwise picks
/// the first disallowed index.
pub proof fn lemma_first_bad(p: PolicyView, s: Seq<char>)
    ensures
        seq_clean(p, s) ==> first_bad(p, s) == s.len(),
        !seq_clean(p, s) ==> is_first_bad(p, s, first_bad(p, s)),
    decreases s.len(),
{
    if s.len() == 0 {
        assert(seq_clean(p, s));
    } else if !char_allowed(p, s[0]) {
        assert(!seq_clean(p, s));
        assert(is_first_bad(p, s, 0));
    } else {
        let t = s.subrange(1, s.len() as int);
        lemma_first_bad(p, t);
        if seq_clean(p, s) {
            assert forall|j: int| 0 <= j < t.len() implies char_allowed(p, #[trigger] t[j]) by {
                assert(t[j] == s[j + 1]);
            }
            assert(seq_clean(p, t));
        } else {
            let i = choose|i: int| 0 <= i < s.len() && !char_allowed(p, #[trigger] s[i]);
            assert(i >= 1);
            assert(t[i - 1] == s[i]);
            assert(!seq_clean(p, t));
            let f = first_bad(p, t);
            assert(is_first_bad(p, t, f));
            assert(s[f + 1] == t[f]);
            assert forall|j: int| 0 <= j < f + 1 implies char_allowed(p, #[trigger] s[j]) by {
                if j >= 1 {
                    assert(s[j] == t[j - 1]);
                }
            }
            assert(is_first_bad(p, s, f + 1));
        }
    }
}

/// `last_bad` is `-1` exactly on clean strings, and otherwise picks the
/// last disallowed index.
pub proof fn lemma_last_bad(p: PolicyView, s: Seq<char>)
    ensures
        seq_clean(p, s) ==> last_bad(p, s) == -1,
        !seq_clean(p, s) ==> is_last_bad(p, s, last_bad(p, s)),
    decreases s.len(),
{
    if s.len() == 0 {
        assert(seq_clean(p, s));
    } else if !char_allowed(p, s[s.len() - 1]) {
        assert(!seq_clean(p, s));
        assert(is_last_bad(p, s, s.len() - 1));
    } else {
        let t = s.subrange(0, s.len() - 1);
        lemma_last_bad(p, t);
        if seq_clean(p, s) {
            assert forall|j: int| 0 <= j < t.len() implies char_allowed(p, #[trigger] t[j]) by {
                assert(t[j] == s[j]);
            }
            assert(seq_clean(p, t));
        } else {
            let i = choose|i: int| 0 <= i < s.len() && !char_allowed(p, #[trigger] s[i]);
            assert(i < s.len() - 1);
            assert(t[i] == s[i]);
            assert(!seq_clean(p, t));
            let l = last_bad(p, t);
            assert(is_last_bad(p, t, l));
            assert(s[l] == t[l]);
            assert forall|j: int| l < j < s.len() implies char_allowed(p, #[trigger] s[j]) by {
                if j < s.len() - 1 {
                    assert(s[j] == t[j]);
                }
            }
            assert(is_last_bad(p, s, l));
        }
    }
}

/// Any index that is a first disallowed index is `first_bad`.
pub proof fn lemma_first_bad_unique(p: PolicyView, s: Seq<char>, f: int)
    requires
        is_first_bad(p, s, f),
    ensures
        first_bad(p, s) == f,
{
    assert(!seq_clean(p, s));
    lemma_first_bad(p, s);
    let f0 = first_bad(p, s);
    if f0 < f {
        assert(char_allowed(p, s[f0]));
        assert(false);
    }
    if f < f0 {
        assert(char_allowed(p, s[f]));
        assert(false);
    }
}

/// Any index that is a last disallowed index is `last_bad`.
pub proof fn lemma_last_bad_unique(p: PolicyView, s: Seq<char>, l: int)
    requires
        is_last_bad(p, s, l),
    ensures
        last_bad(p, s) == l,
{
    assert(!seq_clean(p, s));
    lemma_last_bad(p, s);
    let l0 = last_bad(p, s);
    if l0 < l {
        assert(char_allowed(p, s[l]));
        assert(false);
    }
    if l < l0 {
        assert(char_allowed(p, s[l0]));
        assert(false);
    }
}

/// The width in bytes of the UTF-8 encoding of `c`.
pub open spec fn char_utf8_width(c: char) -> nat {
    encode_scalar(c as u32).len()
}

/// The length in bytes of the UTF-8 encoding of `s`.
pub open spec fn utf8_byte_len(s: Seq<char>) -> nat {
    encode_utf8(s).len()
}

/// A character encodes to between one and four bytes.
pub proof fn lemma_char_utf8_width_bounds(c: char)
    ensures
        1 <= char_utf8_width(c) <= 4,
{
}

/// The encoded length grows by one character's width at a time.
pub proof fn lemma_utf8_byte_len_push(s: Seq<char>, c: char)
    ensures
        utf8_byte_len(s.push(c)) == utf8_byte_len(s) + char_utf8_width(c),
    decreases s.len(),
{
    if s.len() == 0 {
        assert(s.push(c)[0] == c);
        assert(s.push(c).drop_first() =~= Seq::<char>::empty());
        assert(encode_utf8(s.push(c)) == encode_scalar(c as u32) + encode_utf8(
            s.push(c).drop_first(),
        ));
        assert(encode_utf8(Seq::<char>::empty()) =~= Seq::<u8>::empty());
        assert(s =~= Seq::<char>::empty());
    } else {
        assert(s.push(c)[0] == s[0]);
        assert(s.push(c).drop_first() =~= s.drop_first().push(c));
        assert(encode_utf8(s.push(c)) == encode_scalar(s[0] as u32) + encode_utf8(
            s.drop_first().push(c),
        ));
        assert(encode_utf8(s) == encode_scalar(s[0] as u32) + encode_utf8(s.drop_first()));
        lemma_utf8_byte_len_push(s.drop_first(), c);
    }
}

/// The opening character of the verbose marker.
pub open spec fn marker_head() -> Seq<char> {
    seq!['[']
}

/// The characters of the verbose marker that follow the byte count.
pub open spec fn marker_tail() -> Seq<char> {
    seq![' ', 'B', 'Y', 'T', 'E', 'S', ' ', 'S', 'A', 'N', 'I', 'T', 'I', 'Z', 'E', 'D', ']']
}

/// The verbose replacement text for a removed span of `n` bytes.
pub open spec fn marker_text(n: nat) -> Seq<char> {
    marker_head() + dec_digits(n) + marker_tail()
}

/// The span that sanitization removes: everything from the first through
/// the last disallowed character, inclusive.
pub open spec fn removed_span(p: PolicyView, s: Seq<char>) -> Seq<char> {
    s.subrange(first_bad(p, s), last_bad(p, s) + 1)
}

/// The exact UTF-8 byte length of the removed span; this is the count the
/// verbose marker reports.
pub open spec fn removed_byte_count(p: PolicyView, s: Seq<char>) -> nat {
    utf8_byte_len(removed_span(p, s))
}

/// What sanitization produces on a string with at least one disallowed
/// character: the prefix before the first, then the marker (empty in
/// compact mode), then the suffix after the last.
pub open spec fn sanitize_result(p: PolicyView, s: Seq<char>, verbose: bool) -> Seq<char> {
    s.subrange(0, first_bad(p, s)) + (if verbose {
        marker_text(removed_byte_count(p, s))
    } else {
        Seq::<char>::empty()
    }) + s.subrange(last_bad(p, s) + 1, s.len() as int)
}

/// What `sanitize` returns: `None` exactly on clean input, otherwise the
/// collapsed string.
pub open spec fn sanitize_spec(p: PolicyView, s: Seq<char>, verbose: bool) -> Option<Seq<char>> {
    if seq_clean(p, s) {
        None
    } else {
        Some(sanitize_result(p, s, verbose))
    }
}

/// The text after one sanitization pass, whether or not it changed.
pub open spec fn sanitized_view(p: PolicyView, s: Seq<char>, verbose: bool) -> Seq<char> {
    if seq_clean(p, s) {
        s
    } else {
        sanitize_result(p, s, verbose)
    }
}

/// Whether the policy allows every character of the verbose marker for a
/// removed span of `n` bytes.
pub open spec fn marker_allowed(p: PolicyView, n: nat) -> bool {
    forall|i: int|
        0 <= i < marker_text(n).len() ==> char_allowed(p, #[trigger] marker_text(n)[i])
}

/// Law: no disallowed code point survives sanitization. Every character
/// of the sanitized result is allowed by the policy — provided, in
/// verbose mode, that the policy allows the marker's own characters
/// (which `lemma_marker_allowed` gives for any policy that covers basic
/// Latin and forbids nothing inside it).
pub proof fn lemma_no_invalid_survivor(p: PolicyView, s: Seq<char>, verbose: bool)
    requires
        !seq_clean(p, s),
        verbose ==> marker_allowed(p, removed_byte_count(p, s)),
    ensures
        seq_clean(p, sanitize_result(p, s, verbose)),
{
    lemma_first_bad(p, s);
    lemma_last_bad(p, s);
    let f = first_bad(p, s);
    let l = last_bad(p, s);
    let pre = s.subrange(0, f);
    let mk: Seq<char> = if verbose {
        marker_text(removed_byte_count(p, s))
    } else {
        Seq::<char>::empty()
    };
    let suf = s.subrange(l + 1, s.len() as int);
    let r = sanitize_result(p, s, verbose);
    assert(r == pre + mk + suf);
    assert forall|i: int| 0 <= i < r.len() implies char_allowed(p, #[trigger] r[i]) by {
        if i < pre.len() {
            assert(r[i] == s[i]);
        } else if i < pre.len() + mk.len() {
            assert(r[i] == mk[i - pre.len()]);
        } else {
            assert(r[i] == s[l + 1 + (i - pre.len() - mk.len())]);
        }
    }
}

/// Law: sanitization is idempotent. Whatever one pass yields — the input
/// itself when it was clean, the collapsed string otherwise — a second
/// pass, in either output mode, finds nothing to remove and returns
/// `None`. The proviso is as in `lemma_no_invalid_survivor`: in verbose
/// mode the policy must allow the marker's own characters.
pub proof fn lemma_sanitize_idempotent(p: PolicyView, s: Seq<char>, verbose: bool, again: bool)
    requires
        (verbose && !seq_clean(p, s)) ==> marker_allowed(p, removed_byte_count(p, s)),
    ensures
        sanitize_spec(p, sanitized_view(p, s, verbose), again) is None,
{
    if !seq_clean(p, s) {
        lemma_no_invalid_survivor(p, s, verbose);
    }
}

/// The verbose marker consists of basic-Latin characters only, so any
/// policy that covers the basic-Latin baseline range and forbids no code
/// point inside it allows the whole marker.
pub proof fn lemma_marker_allowed(p: PolicyView, n: nat)
    requires
        ranges_cover(p.ranges, BASIC_LATIN_LOW, BASIC_LATIN_HIGH),
        forall|i: int|
            0 <= i < p.forbidden.len() ==> !(BASIC_LATIN_LOW <= (#[trigger] p.forbidden[i]) as u32
                <= BASIC_LATIN_HIGH),
    ensures
        marker_allowed(p, n),
{
    lemma_dec_digits_ascii(n);
    let m = marker_text(n);
    assert forall|i: int| 0 <= i < m.len() implies char_allowed(p, #[trigger] m[i]) by {
        let c = m[i];
        if i < 1 {
            assert(c == '[');
        } else if i < 1 + dec_digits(n).len() {
            assert(c == dec_digits(n)[i - 1]);
        } else {
            assert(c == marker_tail()[i - 1 - dec_digits(n).len()]);
        }
        assert(BASIC_LATIN_LOW <= c as u32 <= BASIC_LATIN_HIGH);
        let k = choose|k: int|
            0 <= k < p.ranges.len() && (#[trigger] p.ranges[k]).low <= BASIC_LATIN_LOW
                && BASIC_LATIN_HIGH <= p.ranges[k].high;
        assert(p.ranges[k].spec_contains(c as u32));
        assert(cp_in_ranges(p, c as u32));
        assert(!cp_forbidden(p, c as u32));
    }
}

/// Law: a string built by appending policy-clean fragments is itself
/// clean. Together with the sanitizer's contract this is what keeps a
/// `CowStr` free of disallowed code points across appends.
pub proof fn lemma_clean_append(p: PolicyView, a: Seq<char>, b: Seq<char>)
    requires
        seq_clean(p, a),
        seq_clean(p, b),
    ensures
        seq_clean(p, a + b),
{
    assert forall|i: int| 0 <= i < (a + b).len() implies char_allowed(p, #[trigger] (a + b)[i]) by {
        if i < a.len() {
            assert((a + b)[i] == a[i]);
        } else {
            assert((a + b)[i] == b[i - a.len()]);
        }
    }
}

/// The width in bytes of the UTF-8 encoding of `c`.
fn char_width(c: char) -> (w: u8)
    ensures
        w as nat == char_utf8_width(c),
{
    proof {
        char_is_scalar(c);
    }
    let v = c as u32;
    if v < 0x80 {
        1
    } else if v < 0x800 {
        2
    } else if v < 0x10000 {
        3
    } else {
        4
    }
}

/// Removes every code point outside the policy, collapsing the whole span
/// between the first and the last disallowed code point.
///
/// Returns `None` when every code point of `input` is allowed: the caller
/// may keep the original and avoid any copy. Otherwise returns the new
/// string: the prefix before the first disallowed code point, then — in
/// verbose mode — a `[<N> BYTES SANITIZED]` marker reporting the removed
/// span's exact UTF-8 byte length, then the suffix after the last
/// disallowed code point.
pub fn sanitize(input: &str, policy: &RangePolicy, verbose: bool) -> (r: Option<String>)
    ensures
        match r {
            None => seq_clean(policy@, input@),
            Some(out) => !seq_clean(policy@, input@) && out@ == sanitize_result(
                policy@,
                input@,
                verbose,
            ),
        },
{
    let ghost s = input@;
    let ghost p = policy@;
    let n = input.unicode_len();
    let mut found = false;
    let mut first: usize = 0;
    let mut last_end: usize = 0;
    let mut i: usize = 0;
    while i < n
        invariant
            s == input@,
            p == policy@,
            n == s.len(),
            i <= n,
            !found ==> forall|k: int| 0 <= k < i ==> char_allowed(p, #[trigger] s[k]),
            found ==> first < i,
            found ==> !char_allowed(p, s[first as int]),
            found ==> forall|k: int| 0 <= k < first ==> char_allowed(p, #[trigger] s[k]),
            found ==> first < last_end <= i,
            found ==> !char_allowed(p, s[last_end - 1]),
            found ==> forall|k: int| last_end <= k < i ==> char_allowed(p, #[trigger] s[k]),
        decreases n - i,
    {
        let c = input.get_char(i);
        if !policy.contains(c as u32) {
            if !found {
                first = i;
                found = true;
            }
            last_end = i + 1;
        }
        i += 1;
    }
    if !found {
        proof {
            assert(seq_clean(p, s));
        }
        return None;
    }
    proof {
        assert(is_first_bad(p, s, first as int));
        assert(is_last_bad(p, s, last_end - 1));
        lemma_first_bad_unique(p, s, first as int);
        lemma_last_bad_unique(p, s, last_end - 1);
        assert(!seq_clean(p, s));
    }
    let prefix = input.substring_char(0, first);
    let suffix = input.substring_char(last_end, n);
    let mut out = prefix.to_owned();
    if verbose {
        let mut bytes: u128 = 0;
        let mut j: usize = first;
        while j < last_end
            invariant
                s == input@,
                n == s.len(),
                first <= j <= last_end,
                last_end <= n,
                bytes as nat == utf8_byte_len(s.subrange(first as int, j as int)),
                bytes <= 4 * (j - first),
            decreases last_end - j,
        {
            let c = input.get_char(j);
            let w = char_width(c);
            proof {
                assert(s.subrange(first as int, j + 1) =~= s.subrange(
                    first as int,
                    j as int,
                ).push(s[j as int]));
                lemma_utf8_byte_len_push(s.subrange(first as int, j as int), s[j as int]);
                lemma_char_utf8_width_bounds(s[j as int]);
            }
            bytes = bytes + (w as u128);
            j += 1;
        }
        proof {
            assert(s.subrange(first as int, last_end as int) == removed_span(p, s));
            assert(bytes as nat == removed_byte_count(p, s));
        }
        out.append("[");
        let digits = format_u128(bytes);
        out.append(digits.as_str());
        out.append(" BYTES SANITIZED]");
        proof {
            reveal_strlit("[");
            reveal_strlit(" BYTES SANITIZED]");
            assert("["@ =~= marker_head());
            assert(" BYTES SANITIZED]"@ =~= marker_tail());
            assert(out@ =~= s.subrange(0, first as int) + marker_text(
                removed_byte_count(p, s),
            ));
        }
    }
    out.append(suffix);
    proof {
        assert(out@ =~= sanitize_result(p, s, verbose));
    }
    Some(out)
}

} // verus!
