//! A copy-on-write string wrapper that is always sanitized.
//!
//! [`CowStr`] wraps either a borrowed view of, or an owned copy of, a
//! string. Every path that introduces text — construction and append —
//! runs through [`sanitize`] first, and the wrapper upgrades to an owned
//! copy only when sanitization actually changed the content or the
//! wrapper is mutated. Equality operates on the text, not on the storage
//! mode.

use vstd::prelude::*;
use vstd::string::StrSliceExecFns;
use vstd::string::StringExecFns;
use crate::policy::PolicyView;
use crate::policy::RangePolicy;
use crate::san::lemma_clean_append;
use crate::san::lemma_sanitize_idempotent;
use crate::san::marker_allowed;
use crate::san::removed_byte_count;
use crate::san::sanitize;
use crate::san::sanitized_view;
use crate::san::seq_clean;

verus! {

/// The two storage modes of a [`CowStr`]: a view into caller-supplied
/// text, or a privately owned buffer.
#[derive(Debug)]
pub enum StrStorage<'a> {
    /// A view into text supplied by the caller; no allocation was made.
    Borrowed(&'a str),
    /// A privately owned buffer.
    Owned(String),
}

impl<'a> StrStorage<'a> {
    /// The characters held, regardless of storage mode.
    pub open spec fn chars(self) -> Seq<char> {
        match self {
            StrStorage::Borrowed(s) => s@,
            StrStorage::Owned(s) => s@,
        }
    }
}

/// A string that has been sanitized against a [`RangePolicy`] and stays
/// sanitized: construction and every append run the sanitizer before any
/// text is stored. The content is copied only when sanitization changes
/// it or the wrapper is mutated.
#[derive(Debug)]
pub struct CowStr<'a> {
    inner: StrStorage<'a>,
}

impl<'a> View for CowStr<'a> {
    type V = Seq<char>;

    closed spec fn view(&self) -> Seq<char> {
        self.inner.chars()
    }
}

impl<'a> CowStr<'a> {
    /// Whether the wrapper holds a privately owned buffer.
    pub closed spec fn spec_is_owned(&self) -> bool {
        self.inner is Owned
    }

    /// Whether the wrapper holds a borrowed view of caller-supplied text.
    pub closed spec fn spec_is_borrowed(&self) -> bool {
        self.inner is Borrowed
    }

    /// The storage is always exactly one of the two modes: borrowed and
    /// owned are mutually exclusive and exhaustive.
    pub proof fn lemma_storage_dichotomy(&self)
        ensures
            self.spec_is_borrowed() <==> !self.spec_is_owned(),
    {
    }

    /// Wraps `s`, sanitizing it first. When `s` is already clean under
    /// the policy, the original slice is borrowed and nothing is
    /// allocated; otherwise the sanitized copy is owned.
    pub fn new(s: &'a str, policy: &RangePolicy, verbose: bool) -> (r: CowStr<'a>)
        ensures
            r@ == sanitized_view(policy@, s@, verbose),
            r.spec_is_borrowed() <==> seq_clean(policy@, s@),
            r.spec_is_owned() <==> !seq_clean(policy@, s@),
    {
        match sanitize(s, policy, verbose) {
            None => CowStr { inner: StrStorage::Borrowed(s) },
            Some(t) => CowStr { inner: StrStorage::Owned(t) },
        }
    }

    /// Wraps an owned string, sanitizing it first. The buffer stays owned
    /// either way; when sanitization changes nothing the original buffer
    /// is kept without copying.
    pub fn from_owned(s: String, policy: &RangePolicy, verbose: bool) -> (r: CowStr<'static>)
        ensures
            r@ == sanitized_view(policy@, s@, verbose),
            r.spec_is_owned(),
            !r.spec_is_borrowed(),
    {
        match sanitize(s.as_str(), policy, verbose) {
            None => CowStr { inner: StrStorage::Owned(s) },
            Some(t) => CowStr { inner: StrStorage::Owned(t) },
        }
    }

    /// Converts into a wrapper with the `'static` lifetime, copying the
    /// text when it is not already owned.
    pub fn into_static(self) -> (r: CowStr<'static>)
        ensures
            r@ == self@,
            r.spec_is_owned(),
            !r.spec_is_borrowed(),
    {
        CowStr { inner: StrStorage::Owned(self.into_owned()) }
    }

    /// Materializes an owned copy of the text, regardless of the current
    /// storage mode.
    pub fn into_owned(self) -> (r: String)
        ensures
            r@ == self@,
    {
        match self.inner {
            StrStorage::Borrowed(s) => s.to_owned(),
            StrStorage::Owned(s) => s,
        }
    }

    /// Appends a fragment, sanitizing the fragment on its own first. Any
    /// append is a mutation, so the wrapper is forced into owned storage.
    pub fn push_str(&mut self, s: &str, policy: &RangePolicy, verbose: bool)
        ensures
            final(self)@ == old(self)@ + sanitized_view(policy@, s@, verbose),
            final(self).spec_is_owned(),
            !final(self).spec_is_borrowed(),
    {
        let frag: String = match sanitize(s, policy, verbose) {
            None => s.to_owned(),
            Some(t) => t,
        };
        let mut taken = StrStorage::Owned(String::new());
        core::mem::swap(&mut self.inner, &mut taken);
        let mut owned: String = match taken {
            StrStorage::Borrowed(b) => b.to_owned(),
            StrStorage::Owned(o) => o,
        };
        owned.append(frag.as_str());
        self.inner = StrStorage::Owned(owned);
    }

    /// Whether the wrapper holds a privately owned buffer.
    pub fn is_owned(&self) -> (r: bool)
        ensures
            r == self.spec_is_owned(),
            r == !self.spec_is_borrowed(),
    {
        match &self.inner {
            StrStorage::Owned(_) => true,
            StrStorage::Borrowed(_) => false,
        }
    }

    /// Whether the wrapper holds a borrowed view of caller-supplied text.
    pub fn is_borrowed(&self) -> (r: bool)
        ensures
            r == self.spec_is_borrowed(),
            r == !self.spec_is_owned(),
    {
        match &self.inner {
            StrStorage::Borrowed(_) => true,
            StrStorage::Owned(_) => false,
        }
    }

    /// Whether the text is empty.
    pub fn is_empty(&self) -> (r: bool)
        ensures
            r == (self@.len() == 0),
    {
        match &self.inner {
            StrStorage::Borrowed(s) => s.is_empty(),
            StrStorage::Owned(s) => s.as_str().is_empty(),
        }
    }

    /// Unwraps into the underlying storage.
    pub fn into_inner(self) -> (r: StrStorage<'a>)
        ensures
            r.chars() == self@,
            r is Borrowed <==> self.spec_is_borrowed(),
            r is Owned <==> self.spec_is_owned(),
    {
        self.inner
    }

    /// A read-only view of the text.
    pub fn as_str<'b>(&'b self) -> (r: &'b str)
        ensures
            r@ == self@,
    {
        match &self.inner {
            StrStorage::Borrowed(s) => *s,
            StrStorage::Owned(s) => s.as_str(),
        }
    }
}

/// Law: a `CowStr` never exposes a disallowed code point. Construction
/// stores one pass of the sanitizer, `push_str` appends another, and both
/// passes yield clean text, so every text the wrapper can hold is clean.
/// As everywhere, the proviso is that in verbose mode the policy allows
/// the marker's own characters.
pub proof fn lemma_cowstr_stays_clean(
    p: PolicyView,
    base: Seq<char>,
    frag: Seq<char>,
    base_verbose: bool,
    frag_verbose: bool,
)
    requires
        (base_verbose && !seq_clean(p, base)) ==> marker_allowed(p, removed_byte_count(p, base)),
        (frag_verbose && !seq_clean(p, frag)) ==> marker_allowed(p, removed_byte_count(p, frag)),
    ensures
        seq_clean(p, sanitized_view(p, base, base_verbose)),
        seq_clean(
            p,
            sanitized_view(p, base, base_verbose) + sanitized_view(p, frag, frag_verbose),
        ),
{
    lemma_sanitize_idempotent(p, base, base_verbose, base_verbose);
    lemma_sanitize_idempotent(p, frag, frag_verbose, frag_verbose);
    lemma_clean_append(
        p,
        sanitized_view(p, base, base_verbose),
        sanitized_view(p, frag, frag_verbose),
    );
}

/// Character-by-character string comparison.
fn str_eq(a: &str, b: &str) -> (r: bool)
    ensures
        r == (a@ == b@),
{
    let n = a.unicode_len();
    let m = b.unicode_len();
    if n != m {
        return false;
    }
    let mut i: usize = 0;
    while i < n
        invariant
            n == a@.len(),
            n == b@.len(),
            i <= n,
            forall|k: int| 0 <= k < i ==> a@[k] == b@[k],
        decreases n - i,
    {
        if a.get_char(i) != b.get_char(i) {
            return false;
        }
        i += 1;
    }
    proof {
        assert(a@ =~= b@);
    }
    true
}

impl<'a> Clone for CowStr<'a> {
    /// The clone keeps both the text and the storage mode.
    fn clone(&self) -> (r: Self)
        ensures
            r@ == self@,
            r.spec_is_borrowed() <==> self.spec_is_borrowed(),
            r.spec_is_owned() <==> self.spec_is_owned(),
    {
        CowStr {
            inner: match &self.inner {
                StrStorage::Borrowed(s) => StrStorage::Borrowed(*s),
                StrStorage::Owned(o) => StrStorage::Owned(o.clone()),
            },
        }
    }
}

impl<'a> PartialEq for CowStr<'a> {
    /// Equality operates on the text, not on the storage mode.
    fn eq(&self, other: &CowStr<'a>) -> (r: bool) {
        str_eq(self.as_str(), other.as_str())
    }
}

impl<'a> vstd::std_specs::cmp::PartialEqSpecImpl for CowStr<'a> {
    open spec fn obeys_eq_spec() -> bool {
        true
    }

    open spec fn eq_spec(&self, other: &CowStr<'a>) -> bool {
        self@ == other@
    }
}

} // verus!
