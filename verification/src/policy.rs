//! The classification policy: which Unicode code points a deployment allows.
//!
//! A [`RangePolicy`] is an immutable set of inclusive code-point ranges
//! (union semantics) together with a set of explicitly forbidden code
//! points that overrides range membership. It is built once and carries no
//! mutation API. Every valid policy covers two baseline ranges: the
//! whitespace control characters tab through form feed, and basic Latin
//! without control characters and DEL.

use vstd::prelude::*;

verus! {

/// Low end of the built-in whitespace range (tab).
pub const WHITESPACE_LOW: u32 = 0x09;

/// High end of the built-in whitespace range (form feed).
pub const WHITESPACE_HIGH: u32 = 0x0C;

/// Low end of the built-in basic Latin range (space).
pub const BASIC_LATIN_LOW: u32 = 0x20;

/// High end of the built-in basic Latin range (tilde; DEL is excluded).
pub const BASIC_LATIN_HIGH: u32 = 0x7E;

/// One contiguous, inclusive block of allowed Unicode code points, tagged
/// with a category name.
pub struct CodePointRange {
    /// Human-readable name of the block, e.g. `"basic-latin"`. It plays no
    /// part in classification.
    pub category: String,
    /// First code point of the block.
    pub low: u32,
    /// Last code point of the block, inclusive.
    pub high: u32,
}

impl CodePointRange {
    /// Whether `cp` falls inside this block.
    pub open spec fn spec_contains(self, cp: u32) -> bool {
        self.low <= cp <= self.high
    }

    /// Whether `cp` falls inside this block.
    pub fn contains(&self, cp: u32) -> (r: bool)
        ensures
            r == self.spec_contains(cp),
    {
        self.low <= cp && cp <= self.high
    }
}

/// The mathematical content of a [`RangePolicy`]: the allowed ranges in
/// order, and the forbidden code points in order.
pub ghost struct PolicyView {
    pub ranges: Seq<CodePointRange>,
    pub forbidden: Seq<char>,
}

/// Whether some range of `ranges` contains every code point of `lo..=hi`.
pub open spec fn ranges_cover(ranges: Seq<CodePointRange>, lo: u32, hi: u32) -> bool {
    exists|i: int|
        0 <= i < ranges.len() && (#[trigger] ranges[i]).low <= lo && hi <= ranges[i].high
}

/// Whether `ranges` covers the two baseline ranges that every valid policy
/// must allow: whitespace controls and basic Latin.
pub open spec fn baseline_covered(ranges: Seq<CodePointRange>) -> bool {
    &&& ranges_cover(ranges, WHITESPACE_LOW, WHITESPACE_HIGH)
    &&& ranges_cover(ranges, BASIC_LATIN_LOW, BASIC_LATIN_HIGH)
}

/// Whether the policy explicitly forbids `cp`.
pub open spec fn cp_forbidden(p: PolicyView, cp: u32) -> bool {
    exists|i: int| 0 <= i < p.forbidden.len() && (#[trigger] p.forbidden[i]) as u32 == cp
}

/// Whether `cp` lies in at least one allowed range of the policy.
pub open spec fn cp_in_ranges(p: PolicyView, cp: u32) -> bool {
    exists|i: int| 0 <= i < p.ranges.len() && (#[trigger] p.ranges[i]).spec_contains(cp)
}

/// Whether the policy classifies `cp` as valid: inside some allowed range,
/// and not forbidden. A forbidden code point is invalid even when a range
/// contains it.
pub open spec fn cp_allowed(p: PolicyView, cp: u32) -> bool {
    !cp_forbidden(p, cp) && cp_in_ranges(p, cp)
}

/// Whether the policy classifies the character `c` as valid.
pub open spec fn char_allowed(p: PolicyView, c: char) -> bool {
    cp_allowed(p, c as u32)
}

/// An immutable classification policy: allowed ranges plus forbidden
/// overrides. Constructed once; read-only afterwards.
pub struct RangePolicy {
    ranges: Vec<CodePointRange>,
    forbidden: Vec<char>,
}

impl View for RangePolicy {
    type V = PolicyView;

    closed spec fn view(&self) -> PolicyView {
        PolicyView { ranges: self.ranges@, forbidden: self.forbidden@ }
    }
}

impl RangePolicy {
    /// Builds a policy from the given ranges and forbidden code points.
    ///
    /// Returns `None` when the ranges do not cover the two baseline
    /// ranges: that is a configuration error, surfaced at construction
    /// rather than during sanitization.
    pub fn new(ranges: Vec<CodePointRange>, forbidden: Vec<char>) -> (r: Option<RangePolicy>)
        ensures
            r is Some <==> baseline_covered(ranges@),
            r matches Some(p) ==> p@.ranges == ranges@ && p@.forbidden == forbidden@,
    {
        let ws_ok = Self::find_cover(&ranges, WHITESPACE_LOW, WHITESPACE_HIGH);
        let bl_ok = Self::find_cover(&ranges, BASIC_LATIN_LOW, BASIC_LATIN_HIGH);
        if ws_ok && bl_ok {
            Some(RangePolicy { ranges, forbidden })
        } else {
            None
        }
    }

    /// Builds a policy from the two built-in baseline ranges, the given
    /// extra ranges, and the given forbidden code points. This constructor
    /// cannot fail: the baseline is always present.
    pub fn with_baseline(extra: Vec<CodePointRange>, forbidden: Vec<char>) -> (p: RangePolicy)
        ensures
            p@.forbidden == forbidden@,
            p@.ranges.len() == 2 + extra@.len(),
            p@.ranges[0].low == WHITESPACE_LOW && p@.ranges[0].high == WHITESPACE_HIGH,
            p@.ranges[1].low == BASIC_LATIN_LOW && p@.ranges[1].high == BASIC_LATIN_HIGH,
            p@.ranges[0].category@ == "whitespace"@,
            p@.ranges[1].category@ == "basic-latin"@,
            p@.ranges.subrange(2, p@.ranges.len() as int) == extra@,
            baseline_covered(p@.ranges),
    {
        let mut extra = extra;
        let mut ranges: Vec<CodePointRange> = Vec::new();
        ranges.push(
            CodePointRange {
                category: "whitespace".to_owned(),
                low: WHITESPACE_LOW,
                high: WHITESPACE_HIGH,
            },
        );
        ranges.push(
            CodePointRange {
                category: "basic-latin".to_owned(),
                low: BASIC_LATIN_LOW,
                high: BASIC_LATIN_HIGH,
            },
        );
        let ghost extra0 = extra@;
        ranges.append(&mut extra);
        proof {
            assert(ranges@.subrange(2, ranges@.len() as int) =~= extra0);
            assert(ranges_cover(ranges@, WHITESPACE_LOW, WHITESPACE_HIGH)) by {
                assert(ranges@[0].spec_contains(WHITESPACE_LOW));
            }
            assert(ranges_cover(ranges@, BASIC_LATIN_LOW, BASIC_LATIN_HIGH)) by {
                assert(ranges@[1].spec_contains(BASIC_LATIN_LOW));
            }
        }
        RangePolicy { ranges, forbidden }
    }

    /// Whether the policy classifies `cp` as valid: inside some allowed
    /// range, and not forbidden.
    pub fn contains(&self, cp: u32) -> (r: bool)
        ensures
            r == cp_allowed(self@, cp),
    {
        let mut i: usize = 0;
        while i < self.forbidden.len()
            invariant
                0 <= i <= self.forbidden.len(),
                self.forbidden@ == self@.forbidden,
                forall|k: int| 0 <= k < i ==> (#[trigger] self@.forbidden[k]) as u32 != cp,
            decreases self.forbidden.len() - i,
        {
            if self.forbidden[i] as u32 == cp {
                proof {
                    assert(self@.forbidden[i as int] as u32 == cp);
                    assert(cp_forbidden(self@, cp));
                }
                return false;
            }
            i += 1;
        }
        proof {
            assert(!cp_forbidden(self@, cp));
        }
        let mut j: usize = 0;
        while j < self.ranges.len()
            invariant
                0 <= j <= self.ranges.len(),
                self.ranges@ == self@.ranges,
                !cp_forbidden(self@, cp),
                forall|k: int| 0 <= k < j ==> !(#[trigger] self@.ranges[k]).spec_contains(cp),
            decreases self.ranges.len() - j,
        {
            if self.ranges[j].contains(cp) {
                proof {
                    assert(self@.ranges[j as int].spec_contains(cp));
                    assert(cp_in_ranges(self@, cp));
                }
                return true;
            }
            j += 1;
        }
        proof {
            assert(!cp_in_ranges(self@, cp));
        }
        false
    }

    /// Whether some range of `ranges` contains every code point of
    /// `lo..=hi`.
    fn find_cover(ranges: &Vec<CodePointRange>, lo: u32, hi: u32) -> (r: bool)
        ensures
            r == ranges_cover(ranges@, lo, hi),
    {
        let mut i: usize = 0;
        while i < ranges.len()
            invariant
                0 <= i <= ranges.len(),
                forall|k: int|
                    0 <= k < i ==> !((#[trigger] ranges@[k]).low <= lo && hi <= ranges@[k].high),
            decreases ranges.len() - i,
        {
            if ranges[i].low <= lo && hi <= ranges[i].high {
                return true;
            }
            i += 1;
        }
        false
    }
}

} // verus!
