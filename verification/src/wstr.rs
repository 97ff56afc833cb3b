//! Dual-width string buffer engine.
//!
//! A string value is a sequence of 16-bit code units stored either narrow
//! (one byte per unit, for content entirely below 0x100) or wide (two bytes
//! per unit). Every operation behaves identically regardless of width: the
//! abstract value of a buffer is its `Seq<u16>` of code units. Unpaired
//! surrogates are permitted and preserved verbatim.

use vstd::prelude::*;

verus! {

/// A raw string buffer containing `u8` or `u16` code units.
#[derive(Clone, Debug)]
pub enum Units<T, U> {
    /// A buffer of `u8` code units, interpreted as LATIN-1.
    Bytes(T),
    /// A buffer of `u16` code units, interpreted as UTF-16 but allowing
    /// unpaired surrogates.
    Wide(U),
}

impl Units<Vec<u8>, Vec<u16>> {
    /// Number of code units, regardless of width.
    pub fn len(&self) -> (r: usize)
        ensures
            r == unit_seq(self).len(),
    {
        match self {
            Units::Bytes(buf) => buf.len(),
            Units::Wide(buf) => buf.len(),
        }
    }
}

/// The abstract code-unit sequence of an owned buffer.
pub open spec fn unit_seq(u: &Units<Vec<u8>, Vec<u16>>) -> Seq<u16> {
    match u {
        Units::Bytes(b) => b@.map_values(|x: u8| x as u16),
        Units::Wide(w) => w@,
    }
}

/// An owned dual-width string.
#[derive(Clone, Debug)]
pub struct WString {
    pub units: Units<Vec<u8>, Vec<u16>>,
}

impl View for WString {
    type V = Seq<u16>;

    open spec fn view(&self) -> Seq<u16> {
        unit_seq(&self.units)
    }
}

/// A borrowed dual-width string slice.
pub struct WStr<'a> {
    pub units: Units<&'a [u8], &'a [u16]>,
}

impl<'a> View for WStr<'a> {
    type V = Seq<u16>;

    open spec fn view(&self) -> Seq<u16> {
        match self.units {
            Units::Bytes(b) => b@.map_values(|x: u8| x as u16),
            Units::Wide(w) => w@,
        }
    }
}

/// Types that can be viewed as a borrowed dual-width string slice.
///
/// Only the shared view exists: a mutable dual-width slice would have to
/// hold a mutable slice reference inside a value, which the verifier does
/// not support. In-place mutation is offered on the owning buffer instead
/// ([`WString::set_unit`], [`WString::push`]).
pub trait BorrowWStr {
    fn borrow(&self) -> (r: WStr<'_>)
        ensures
            r@ == self.borrowed_units(),
    ;

    /// The code-unit sequence that `borrow` exposes.
    spec fn borrowed_units(&self) -> Seq<u16>;
}

impl BorrowWStr for WString {
    open spec fn borrowed_units(&self) -> Seq<u16> {
        self@
    }

    fn borrow(&self) -> (r: WStr<'_>) {
        match &self.units {
            Units::Bytes(b) => WStr { units: Units::Bytes(b.as_slice()) },
            Units::Wide(w) => WStr { units: Units::Wide(w.as_slice()) },
        }
    }
}

impl WString {
    /// A fresh, empty, narrow string.
    pub fn new() -> (r: WString)
        ensures
            r@ == Seq::<u16>::empty(),
            !r.spec_is_wide(),
    {
        WString { units: Units::Bytes(Vec::new()) }
    }

    /// Builds a narrow string out of byte units.
    pub fn from_bytes(b: Vec<u8>) -> (r: WString)
        ensures
            r@ == b@.map_values(|x: u8| x as u16),
            !r.spec_is_wide(),
    {
        WString { units: Units::Bytes(b) }
    }

    /// Builds a wide string out of 16-bit units.
    pub fn from_wide(w: Vec<u16>) -> (r: WString)
        ensures
            r@ == w@,
            r.spec_is_wide(),
    {
        WString { units: Units::Wide(w) }
    }

    /// Whether the buffer stores two bytes per code unit.
    pub fn is_wide(&self) -> (r: bool)
        ensures
            r == self.spec_is_wide(),
    {
        match &self.units {
            Units::Bytes(_) => false,
            Units::Wide(_) => true,
        }
    }

    pub open spec fn spec_is_wide(&self) -> bool {
        match self.units {
            Units::Bytes(_) => false,
            Units::Wide(_) => true,
        }
    }

    /// A narrow buffer can only hold code units below 0x100.
    pub proof fn lemma_narrow_units_small(&self)
        ensures
            !self.spec_is_wide() ==> forall|i: int|
                0 <= i < self@.len() ==> self@[i] <= 0xFF,
    {
    }

    /// Number of code units.
    pub fn len(&self) -> (r: usize)
        ensures
            r == self@.len(),
    {
        self.units.len()
    }

    pub fn is_empty(&self) -> (r: bool)
        ensures
            r == (self@.len() == 0),
    {
        self.len() == 0
    }

    /// The `i`th code unit; the index must be in range.
    pub fn get(&self, i: usize) -> (r: u16)
        requires
            i < self@.len(),
        ensures
            r == self@[i as int],
    {
        match &self.units {
            Units::Bytes(b) => b[i] as u16,
            Units::Wide(w) => w[i],
        }
    }

    /// The `i`th code unit, or `None` if the index is out of range.
    pub fn try_get(&self, i: usize) -> (r: Option<u16>)
        ensures
            i < self@.len() ==> r == Some(self@[i as int]),
            i >= self@.len() ==> r is None,
    {
        if i < self.len() {
            Some(self.get(i))
        } else {
            None
        }
    }

    /// Borrows the code units in the range `[from, to)`; the bounds must be
    /// in range.
    pub fn slice(&self, from: usize, to: usize) -> (r: WStr<'_>)
        requires
            from <= to <= self@.len(),
        ensures
            r@ == self@.subrange(from as int, to as int),
    {
        let r = match &self.units {
            Units::Bytes(b) => WStr {
                units: Units::Bytes(vstd::slice::slice_subrange(b.as_slice(), from, to)),
            },
            Units::Wide(w) => WStr {
                units: Units::Wide(vstd::slice::slice_subrange(w.as_slice(), from, to)),
            },
        };
        proof {
            assert(r@ =~= self@.subrange(from as int, to as int));
        }
        r
    }

    /// Borrows the code units in the range `[from, to)`, or `None` if the
    /// bounds are out of range.
    pub fn try_slice(&self, from: usize, to: usize) -> (r: Option<WStr<'_>>)
        ensures
            from <= to <= self@.len() ==> (r is Some && r->0@ == self@.subrange(
                from as int,
                to as int,
            )),
            !(from <= to <= self@.len()) ==> r is None,
    {
        if from <= to && to <= self.len() {
            Some(self.slice(from, to))
        } else {
            None
        }
    }

    /// Appends one code unit. A narrow buffer stays narrow for units below
    /// 0x100 and is promoted to wide, with all prior content preserved, by
    /// a unit above 0xFF. A wide buffer is never demoted.
    pub fn push(&mut self, unit: u16)
        ensures
            final(self)@ == old(self)@.push(unit),
            final(self).spec_is_wide() == (old(self).spec_is_wide() || unit > 0xFF),
    {
        let promote = match &self.units {
            Units::Bytes(_) => unit > 0xFF,
            Units::Wide(_) => false,
        };
        if promote {
            let wide = self.widened();
            self.units = Units::Wide(wide);
        }
        match &mut self.units {
            Units::Bytes(b) => {
                b.push(unit as u8);
                proof {
                    assert(self@ =~= old(self)@.push(unit));
                }
            },
            Units::Wide(w) => {
                w.push(unit);
                proof {
                    assert(self@ =~= old(self)@.push(unit));
                }
            },
        }
    }

    /// Copies the code units into a freshly allocated wide vector.
    pub fn widened(&self) -> (r: Vec<u16>)
        ensures
            r@ == self@,
    {
        match &self.units {
            Units::Bytes(b) => {
                let mut out: Vec<u16> = Vec::new();
                let mut i: usize = 0;
                while i < b.len()
                    invariant
                        i <= b@.len(),
                        out@ =~= self@.subrange(0, i as int),
                        self.units == Units::<Vec<u8>, Vec<u16>>::Bytes(*b),
                    decreases b@.len() - i,
                {
                    out.push(b[i] as u16);
                    i += 1;
                    proof {
                        assert(out@ =~= self@.subrange(0, i as int));
                    }
                }
                proof {
                    assert(out@ =~= self@);
                }
                out
            },
            Units::Wide(w) => {
                let mut out: Vec<u16> = Vec::new();
                let mut i: usize = 0;
                while i < w.len()
                    invariant
                        i <= w@.len(),
                        out@ =~= w@.subrange(0, i as int),
                        self.units == Units::<Vec<u8>, Vec<u16>>::Wide(*w),
                    decreases w@.len() - i,
                {
                    out.push(w[i]);
                    i += 1;
                }
                proof {
                    assert(out@ =~= self@);
                }
                out
            },
        }
    }

    /// Structural copy that keeps both the code units and the width.
    pub fn dup(&self) -> (r: WString)
        ensures
            r@ == self@,
            r.spec_is_wide() == self.spec_is_wide(),
    {
        match &self.units {
            Units::Bytes(b) => {
                let c = b.clone();
                proof {
                    assert(c@ =~= b@);
                }
                WString { units: Units::Bytes(c) }
            },
            Units::Wide(w) => {
                let c = w.clone();
                proof {
                    assert(c@ =~= w@);
                }
                WString { units: Units::Wide(c) }
            },
        }
    }
}

/// Outcome of a three-way string comparison.
#[derive(Clone, Copy, PartialEq, Eq, Structural, Debug)]
pub enum StrOrd {
    Less,
    Equal,
    Greater,
}

/// The fixed legacy case-fold table: the upper-case letters `A`..`Z` fold to
/// their lower-case forms and every other code unit folds to itself. This
/// deliberately diverges from the Unicode default case fold.
pub open spec fn fold_unit(u: u16) -> u16 {
    if 0x41 <= u <= 0x5A {
        (u + 0x20) as u16
    } else {
        u
    }
}

/// The unit-wise case fold of a whole code-unit sequence.
pub open spec fn fold_units(s: Seq<u16>) -> Seq<u16> {
    s.map_values(|u: u16| fold_unit(u))
}

/// Executable form of the case-fold table.
pub fn fold_unit_exec(u: u16) -> (r: u16)
    ensures
        r == fold_unit(u),
{
    if 0x41 <= u && u <= 0x5A {
        u + 0x20
    } else {
        u
    }
}

/// Lexicographic three-way comparison of code-unit sequences.
pub open spec fn lex_cmp(a: Seq<u16>, b: Seq<u16>) -> StrOrd
    decreases a.len(),
{
    if a.len() == 0 && b.len() == 0 {
        StrOrd::Equal
    } else if a.len() == 0 {
        StrOrd::Less
    } else if b.len() == 0 {
        StrOrd::Greater
    } else if a[0] < b[0] {
        StrOrd::Less
    } else if a[0] > b[0] {
        StrOrd::Greater
    } else {
        lex_cmp(a.drop_first(), b.drop_first())
    }
}

proof fn lemma_lex_cmp_skip(a: Seq<u16>, b: Seq<u16>, i: int)
    requires
        0 <= i < a.len(),
        0 <= i < b.len(),
        a[i] == b[i],
    ensures
        lex_cmp(a.skip(i), b.skip(i)) == lex_cmp(a.skip(i + 1), b.skip(i + 1)),
{
    assert(a.skip(i).drop_first() =~= a.skip(i + 1));
    assert(b.skip(i).drop_first() =~= b.skip(i + 1));
    assert(a.skip(i)[0] == a[i]);
    assert(b.skip(i)[0] == b[i]);
}

/// The seed and multiplier of the 64-bit FNV-1a hash.
pub open spec fn hash_step(acc: u64, u: u16) -> u64 {
    (acc ^ (u as u64)).wrapping_mul(0x100000001b3)
}

/// Width-independent hash of a code-unit sequence: FNV-1a over the units.
pub open spec fn hash_units(s: Seq<u16>) -> u64
    decreases s.len(),
{
    if s.len() == 0 {
        0xcbf29ce484222325
    } else {
        hash_step(hash_units(s.drop_last()), s.last())
    }
}

impl WString {
    /// Width-independent equality: two buffers are equal exactly when they
    /// hold the same code units, narrow or wide.
    pub fn eq_units(&self, other: &WString) -> (r: bool)
        ensures
            r == (self@ == other@),
    {
        if self.len() != other.len() {
            proof {
                assert(self@ != other@);
            }
            return false;
        }
        let n = self.len();
        let mut i: usize = 0;
        while i < n
            invariant
                n == self@.len() == other@.len(),
                i <= n,
                forall|j: int| 0 <= j < i ==> self@[j] == other@[j],
            decreases n - i,
        {
            if self.get(i) != other.get(i) {
                proof {
                    assert(self@ != other@);
                }
                return false;
            }
            i += 1;
        }
        proof {
            assert(self@ =~= other@);
        }
        true
    }

    /// Three-way comparison by code units, regardless of width.
    pub fn cmp_units(&self, other: &WString) -> (r: StrOrd)
        ensures
            r == lex_cmp(self@, other@),
            r == StrOrd::Equal <==> self@ == other@,
    {
        let r = self.cmp_loop(other, false);
        proof {
            lemma_lex_cmp_equal_iff(self@, other@);
        }
        r
    }

    /// Case-insensitive equality under the legacy fold table.
    pub fn eq_ignore_case(&self, other: &WString) -> (r: bool)
        ensures
            r == (fold_units(self@) == fold_units(other@)),
    {
        if self.len() != other.len() {
            proof {
                assert(fold_units(self@).len() == self@.len());
                assert(fold_units(other@).len() == other@.len());
            }
            return false;
        }
        let n = self.len();
        let mut i: usize = 0;
        while i < n
            invariant
                n == self@.len() == other@.len(),
                i <= n,
                forall|j: int| 0 <= j < i ==> fold_unit(self@[j]) == fold_unit(other@[j]),
            decreases n - i,
        {
            if fold_unit_exec(self.get(i)) != fold_unit_exec(other.get(i)) {
                proof {
                    assert(fold_units(self@)[i as int] != fold_units(other@)[i as int]);
                }
                return false;
            }
            i += 1;
        }
        proof {
            assert(fold_units(self@) =~= fold_units(other@));
        }
        true
    }

    /// Case-insensitive three-way comparison under the legacy fold table.
    pub fn cmp_ignore_case(&self, other: &WString) -> (r: StrOrd)
        ensures
            r == lex_cmp(fold_units(self@), fold_units(other@)),
    {
        self.cmp_loop(other, true)
    }

    fn cmp_loop(&self, other: &WString, fold: bool) -> (r: StrOrd)
        ensures
            fold ==> r == lex_cmp(fold_units(self@), fold_units(other@)),
            !fold ==> r == lex_cmp(self@, other@),
    {
        let ghost a = if fold {
            fold_units(self@)
        } else {
            self@
        };
        let ghost b = if fold {
            fold_units(other@)
        } else {
            other@
        };
        let an = self.len();
        let bn = other.len();
        let mut i: usize = 0;
        proof {
            assert(a.skip(0) =~= a);
            assert(b.skip(0) =~= b);
        }
        loop
            invariant
                an == a.len() == self@.len(),
                bn == b.len() == other@.len(),
                i <= an,
                i <= bn,
                lex_cmp(a, b) == lex_cmp(a.skip(i as int), b.skip(i as int)),
                fold ==> a == fold_units(self@) && b == fold_units(other@),
                !fold ==> a == self@ && b == other@,
            decreases an - i,
        {
            if i >= an || i >= bn {
                proof {
                    assert(a.skip(i as int).len() == a.len() - i);
                    assert(b.skip(i as int).len() == b.len() - i);
                }
                if an == bn {
                    return StrOrd::Equal;
                } else if an < bn {
                    return StrOrd::Less;
                } else {
                    return StrOrd::Greater;
                }
            }
            let mut au = self.get(i);
            let mut bu = other.get(i);
            if fold {
                au = fold_unit_exec(au);
                bu = fold_unit_exec(bu);
            }
            proof {
                assert(a.skip(i as int)[0] == a[i as int]);
                assert(b.skip(i as int)[0] == b[i as int]);
                assert(a[i as int] == au);
                assert(b[i as int] == bu);
            }
            if au < bu {
                return StrOrd::Less;
            } else if au > bu {
                return StrOrd::Greater;
            }
            proof {
                lemma_lex_cmp_skip(a, b, i as int);
            }
            i += 1;
        }
    }

    /// Width-independent hash code: equal code-unit sequences hash equal,
    /// whatever width each buffer stores them at.
    pub fn hash_code(&self) -> (r: u64)
        ensures
            r == hash_units(self@),
    {
        let n = self.len();
        let mut acc: u64 = 0xcbf29ce484222325;
        let mut i: usize = 0;
        while i < n
            invariant
                n == self@.len(),
                i <= n,
                acc == hash_units(self@.take(i as int)),
            decreases n - i,
        {
            let u = self.get(i);
            acc = (acc ^ (u as u64)).wrapping_mul(0x100000001b3);
            i += 1;
            proof {
                assert(self@.take(i as int).drop_last() =~= self@.take(i as int - 1));
                assert(self@.take(i as int).last() == self@[i as int - 1]);
            }
        }
        proof {
            assert(self@.take(n as int) =~= self@);
        }
        acc
    }

    /// Whether the needle occurs in `self` starting at unit index `i`.
    pub open spec fn match_at(&self, needle: Seq<u16>, i: int) -> bool {
        0 <= i && i + needle.len() <= self@.len() && self@.subrange(i, i + needle.len())
            == needle
    }

    /// The lowest index at which the needle occurs, if any.
    pub fn find(&self, needle: &WString) -> (r: Option<usize>)
        ensures
            match r {
                Some(i) => self.match_at(needle@, i as int) && forall|j: int|
                    0 <= j < i ==> !self.match_at(needle@, j),
                None => forall|j: int| !self.match_at(needle@, j),
            },
    {
        let n = self.len();
        let m = needle.len();
        if m > n {
            return None;
        }
        if m == 0 {
            proof {
                assert(self@.subrange(0, 0) =~= needle@);
            }
            return Some(0);
        }
        let mut i: usize = 0;
        while i <= n - m
            invariant
                n == self@.len(),
                m == needle@.len(),
                0 < m <= n,
                i <= n - m + 1,
                forall|j: int| 0 <= j < i ==> !self.match_at(needle@, j),
            decreases n - i,
        {
            if self.check_match(needle, i) {
                return Some(i);
            }
            i += 1;
        }
        proof {
            assert forall|j: int| !self.match_at(needle@, j) by {
                if 0 <= j <= n - m {
                    assert(!self.match_at(needle@, j));
                }
            }
        }
        None
    }

    /// The highest index at which the needle occurs, if any.
    pub fn rfind(&self, needle: &WString) -> (r: Option<usize>)
        ensures
            match r {
                Some(i) => self.match_at(needle@, i as int) && forall|j: int|
                    i < j ==> !self.match_at(needle@, j),
                None => forall|j: int| !self.match_at(needle@, j),
            },
    {
        let n = self.len();
        let m = needle.len();
        if m > n {
            return None;
        }
        if m == 0 {
            proof {
                assert(self@.subrange(n as int, n as int) =~= needle@);
            }
            return Some(n);
        }
        let mut i: usize = n - m + 1;
        while i > 0
            invariant
                n == self@.len(),
                m == needle@.len(),
                0 < m <= n,
                i <= n - m + 1,
                forall|j: int| i <= j ==> !self.match_at(needle@, j),
            decreases i,
        {
            i -= 1;
            if self.check_match(needle, i) {
                return Some(i);
            }
        }
        None
    }

    /// Overwrites the `i`th code unit in place. As with `push`, a narrow
    /// buffer is promoted to wide by a unit above 0xFF, with all other
    /// content preserved; a wide buffer is never demoted.
    pub fn set_unit(&mut self, i: usize, unit: u16)
        requires
            i < old(self)@.len(),
        ensures
            final(self)@ == old(self)@.update(i as int, unit),
            final(self).spec_is_wide() == (old(self).spec_is_wide() || unit > 0xFF),
    {
        let promote = match &self.units {
            Units::Bytes(_) => unit > 0xFF,
            Units::Wide(_) => false,
        };
        if promote {
            let wide = self.widened();
            self.units = Units::Wide(wide);
        }
        match &mut self.units {
            Units::Bytes(b) => {
                b[i] = unit as u8;
                proof {
                    assert(self@ =~= old(self)@.update(i as int, unit));
                }
            },
            Units::Wide(w) => {
                w[i] = unit;
                proof {
                    assert(self@ =~= old(self)@.update(i as int, unit));
                }
            },
        }
    }

    /// Copies the code units in `[from, to)` into a fresh string.
    pub fn substring(&self, from: usize, to: usize) -> (r: WString)
        requires
            from <= to <= self@.len(),
        ensures
            r@ == self@.subrange(from as int, to as int),
    {
        let mut out = WString::new();
        let mut i: usize = from;
        while i < to
            invariant
                from <= i <= to <= self@.len(),
                out@ =~= self@.subrange(from as int, i as int),
            decreases to - i,
        {
            out.push(self.get(i));
            i += 1;
            proof {
                assert(out@ =~= self@.subrange(from as int, i as int));
            }
        }
        proof {
            assert(out@ =~= self@.subrange(from as int, to as int));
        }
        out
    }

    /// Appends every code unit of another string.
    pub fn append_units(&mut self, other: &WString)
        ensures
            final(self)@ == old(self)@ + other@,
    {
        let n = other.len();
        let mut i: usize = 0;
        proof {
            assert(self@ =~= old(self)@ + other@.subrange(0, 0));
        }
        while i < n
            invariant
                n == other@.len(),
                i <= n,
                self@ == old(self)@ + other@.subrange(0, i as int),
            decreases n - i,
        {
            self.push(other.get(i));
            i += 1;
            proof {
                assert(self@ =~= old(self)@ + other@.subrange(0, i as int));
            }
        }
        proof {
            assert(self@ =~= old(self)@ + other@);
        }
    }

    /// Splits by a non-empty separator into the finite sequence of pieces
    /// between its occurrences, in order.
    pub fn split(&self, sep: &WString) -> (r: Vec<WString>)
        requires
            sep@.len() >= 1,
        ensures
            r@.len() == split_seq(self@, sep@).len(),
            forall|i: int| 0 <= i < r@.len() ==> (#[trigger] r@[i])@ == split_seq(
                self@,
                sep@,
            )[i],
        decreases self@.len(),
    {
        let n = self.len();
        let m = sep.len();
        if n < m {
            let mut out: Vec<WString> = Vec::new();
            out.push(self.dup());
            proof {
                assert(self@.subrange(0, n as int) =~= self@);
            }
            return out;
        }
        if self.check_match(sep, 0) {
            let tail = self.substring(m, n);
            proof {
                assert(tail@ =~= self@.skip(m as int));
            }
            let rest = tail.split(sep);
            let mut out: Vec<WString> = Vec::new();
            out.push(WString::new());
            let mut k: usize = 0;
            while k < rest.len()
                invariant
                    rest@.len() == split_seq(tail@, sep@).len(),
                    forall|i: int| 0 <= i < rest@.len() ==> (#[trigger] rest@[i])@ == split_seq(
                        tail@,
                        sep@,
                    )[i],
                    k <= rest@.len(),
                    out@.len() == k + 1,
                    out@[0]@ == Seq::<u16>::empty(),
                    forall|i: int| 1 <= i < out@.len() ==> (#[trigger] out@[i])@ == rest@[i - 1]@,
                decreases rest@.len() - k,
            {
                out.push(rest[k].dup());
                k += 1;
            }
            proof {
                let full = split_seq(self@, sep@);
                assert(self@.subrange(0, m as int) == sep@);
                assert(full == seq![Seq::<u16>::empty()] + split_seq(self@.skip(m as int), sep@));
                assert forall|i: int| 0 <= i < out@.len() implies (#[trigger] out@[i])@ == full[i]
                    by {
                    if i >= 1 {
                        assert(out@[i]@ == rest@[i - 1]@);
                    }
                }
            }
            return out;
        }
        let tail = self.substring(1, n);
        proof {
            assert(tail@ =~= self@.drop_first());
        }
        let rest = tail.split(sep);
        proof {
            lemma_split_nonempty(tail@, sep@);
        }
        let mut first = self.substring(0, 1);
        first.append_units(&rest[0]);
        let mut out: Vec<WString> = Vec::new();
        out.push(first);
        let mut k: usize = 1;
        while k < rest.len()
            invariant
                rest@.len() >= 1,
                1 <= k <= rest@.len(),
                out@.len() == k,
                forall|i: int| 1 <= i < out@.len() ==> (#[trigger] out@[i])@ == rest@[i]@,
                out@[0]@ == seq![self@[0]] + rest@[0]@,
            decreases rest@.len() - k,
        {
            out.push(rest[k].dup());
            k += 1;
        }
        proof {
            let full = split_seq(self@, sep@);
            let srest = split_seq(self@.drop_first(), sep@);
            assert(self@.subrange(0, m as int) != sep@) by {
                assert(!self.match_at(sep@, 0));
            }
            assert(full == seq![seq![self@[0]] + srest[0]] + srest.drop_first());
            assert(self@.subrange(0, 1) =~= seq![self@[0]]);
            assert forall|i: int| 0 <= i < out@.len() implies (#[trigger] out@[i])@ == full[i] by {
                if i == 0 {
                    assert(out@[0]@ == seq![self@[0]] + srest[0]);
                } else {
                    assert(out@[i]@ == rest@[i]@);
                    assert(full[i] == srest.drop_first()[i - 1]);
                }
            }
        }
        out
    }

    /// Starts a finite, restartable walk over the pieces between
    /// occurrences of a non-empty separator.
    pub fn split_iter(&self, sep: &WString) -> (r: WSplit)
        requires
            sep@.len() >= 1,
        ensures
            r.pieces@.len() == split_seq(self@, sep@).len(),
            forall|i: int| 0 <= i < r.pieces@.len() ==> (#[trigger] r.pieces@[i])@ == split_seq(
                self@,
                sep@,
            )[i],
            r.pos == 0,
    {
        WSplit { pieces: self.split(sep), pos: 0 }
    }

    fn check_match(&self, needle: &WString, i: usize) -> (r: bool)
        requires
            i + needle@.len() <= self@.len(),
        ensures
            r == self.match_at(needle@, i as int),
    {
        let n = self.len();
        let m = needle.len();
        let mut k: usize = 0;
        while k < m
            invariant
                n == self@.len(),
                m == needle@.len(),
                i + m <= self@.len(),
                k <= m,
                forall|j: int| 0 <= j < k ==> self@[i + j] == needle@[j],
            decreases m - k,
        {
            if self.get(i + k) != needle.get(k) {
                proof {
                    assert(self@.subrange(i as int, i + m)[k as int] != needle@[k as int]);
                }
                return false;
            }
            k += 1;
        }
        proof {
            assert(self@.subrange(i as int, i + m) =~= needle@);
        }
        true
    }
}

/// Splitting by a non-empty separator: an initial separator contributes an
/// empty piece; otherwise the leading unit belongs to the first piece. The
/// result is never empty, and a haystack shorter than the separator is one
/// piece.
pub open spec fn split_seq(h: Seq<u16>, sep: Seq<u16>) -> Seq<Seq<u16>>
    decreases h.len(),
    when sep.len() >= 1
{
    if h.len() < sep.len() {
        seq![h]
    } else if h.subrange(0, sep.len() as int) == sep {
        seq![Seq::<u16>::empty()] + split_seq(h.skip(sep.len() as int), sep)
    } else {
        let rest = split_seq(h.drop_first(), sep);
        seq![seq![h[0]] + rest[0]] + rest.drop_first()
    }
}

/// A split always yields at least one piece.
pub proof fn lemma_split_nonempty(h: Seq<u16>, sep: Seq<u16>)
    requires
        sep.len() >= 1,
    ensures
        split_seq(h, sep).len() >= 1,
    decreases h.len(),
{
    if h.len() >= sep.len() {
        if h.subrange(0, sep.len() as int) == sep {
            lemma_split_nonempty(h.skip(sep.len() as int), sep);
        } else {
            lemma_split_nonempty(h.drop_first(), sep);
        }
    }
}

proof fn lemma_lex_cmp_equal_iff(a: Seq<u16>, b: Seq<u16>)
    ensures
        lex_cmp(a, b) == StrOrd::Equal <==> a == b,
    decreases a.len(),
{
    if a.len() == 0 && b.len() == 0 {
        assert(a =~= b);
    } else if a.len() == 0 || b.len() == 0 {
    } else if a[0] == b[0] {
        lemma_lex_cmp_equal_iff(a.drop_first(), b.drop_first());
        if a.drop_first() == b.drop_first() {
            assert forall|i: int| 0 <= i < a.len() implies a[i] == b[i] by {
                if i > 0 {
                    assert(a.drop_first()[i - 1] == b.drop_first()[i - 1]);
                }
            }
            assert(a =~= b);
        }
        if a == b {
            assert(a.drop_first() =~= b.drop_first());
        }
    }
}

/// A finite, restartable walk over the pieces of a split.
pub struct WSplit {
    pub pieces: Vec<WString>,
    pub pos: usize,
}

impl WSplit {
    /// The next piece, or `None` past the last one.
    pub fn next(&mut self) -> (r: Option<WString>)
        ensures
            old(self).pos < old(self).pieces@.len() ==> r is Some && r->0@ == old(
                self,
            ).pieces@[old(self).pos as int]@ && final(self).pos == old(self).pos + 1,
            old(self).pos >= old(self).pieces@.len() ==> r is None && final(self).pos == old(
                self,
            ).pos,
            final(self).pieces@ == old(self).pieces@,
    {
        if self.pos < self.pieces.len() {
            let piece = self.pieces[self.pos].dup();
            self.pos += 1;
            Some(piece)
        } else {
            None
        }
    }

    /// Restarts the walk from the first piece.
    pub fn restart(&mut self)
        ensures
            final(self).pos == 0,
            final(self).pieces@ == old(self).pieces@,
    {
        self.pos = 0;
    }
}

impl PartialEq for WString {
    /// Plain equality compares code-unit sequences directly, so a narrow and
    /// a wide buffer holding the same units are equal.
    fn eq(&self, other: &WString) -> (r: bool) {
        self.eq_units(other)
    }
}

impl Eq for WString {

}

impl vstd::std_specs::cmp::PartialEqSpecImpl for WString {
    open spec fn obeys_eq_spec() -> bool {
        true
    }

    open spec fn eq_spec(&self, other: &WString) -> bool {
        self@ == other@
    }
}

} // verus!
