//! Keys: their structural rules and their validation.
//!
//! A key is read as sixteen nibbles, lowest first. Validation scans the rules
//! in a fixed order and reports the first one that is broken.
use crate::derive::{derived, key};
use crate::nibbles::{lemma_nibble_bound, nibble};
use vstd::prelude::*;

verus! {

/// No nibble is zero.
pub open spec fn all_nonzero(value: u64) -> bool {
    forall|i: int| 0 <= i < 16 ==> #[trigger] nibble(value, i) != 0
}

/// Nibbles 0 to `count - 1` are pairwise distinct.
pub open spec fn distinct_below(value: u64, count: int) -> bool {
    forall|i: int, j: int|
        0 <= i < j < count ==> #[trigger] nibble(value, i) != #[trigger] nibble(value, j)
}

/// Nibble 0 is odd.
pub open spec fn front_odd(value: u64) -> bool {
    nibble(value, 0) % 2 == 1
}

/// Nibble 8 differs from nibble 7.
pub open spec fn ninth_unlike_eighth(value: u64) -> bool {
    nibble(value, 8) != nibble(value, 7)
}

/// None of nibbles 9 to `count - 1` equals nibble 8.
pub open spec fn ninth_unique_below(value: u64, count: int) -> bool {
    forall|i: int| 9 <= i < count ==> #[trigger] nibble(value, i) != nibble(value, 8)
}

/// The structural rules of a key: no nibble is zero; the low eight nibbles
/// are pairwise distinct; nibble 0 is odd; nibble 8 differs from nibble 7;
/// none of nibbles 9 to 15 equals nibble 8.
pub open spec fn admissible(value: u64) -> bool {
    &&& all_nonzero(value)
    &&& distinct_below(value, 8)
    &&& front_odd(value)
    &&& ninth_unlike_eighth(value)
    &&& ninth_unique_below(value, 16)
}

/// The rule that a value breaks, with the nibble that breaks it and, where a
/// scan found it, its position.
#[derive(Clone, Copy, Debug, PartialEq, Eq, Structural)]
pub enum Inadmissible {
    /// The nibble at `position` is zero.
    ContainsZeroNibble { position: usize, nibble: u8 },
    /// The nibble at `position`, one of the low eight, occurs at a lower
    /// position too.
    DuplicateNibbleInLower8 { position: usize, nibble: u8 },
    /// Nibble 0 is even.
    FirstNibbleEven { nibble: u8 },
    /// Nibble 8 equals nibble 7.
    NinthNibbleEqualsEighth { nibble: u8 },
    /// The nibble at `position`, one of the upper seven, equals nibble 8.
    NinthNibbleRepeated { position: usize, nibble: u8 },
}

impl Inadmissible {
    /// `self` is what validation reports for `value`: the first broken rule
    /// in the order zero nibble, duplicate among the low eight, even front,
    /// ninth equal to eighth, ninth repeated above; within a rule that scans,
    /// the first position that breaks it.
    pub open spec fn reported_for(self, value: u64) -> bool {
        match self {
            Inadmissible::ContainsZeroNibble { position, nibble: n } => {
                &&& position < 16
                &&& n == 0
                &&& nibble(value, position as int) == 0
                &&& forall|k: int| 0 <= k < position ==> #[trigger] nibble(value, k) != 0
            },
            Inadmissible::DuplicateNibbleInLower8 { position, nibble: n } => {
                &&& all_nonzero(value)
                &&& position < 8
                &&& n == nibble(value, position as int)
                &&& exists|k: int| 0 <= k < position && #[trigger] nibble(value, k) == n
                &&& distinct_below(value, position as int)
            },
            Inadmissible::FirstNibbleEven { nibble: n } => {
                &&& all_nonzero(value)
                &&& distinct_below(value, 8)
                &&& n == nibble(value, 0)
                &&& n % 2 == 0
            },
            Inadmissible::NinthNibbleEqualsEighth { nibble: n } => {
                &&& all_nonzero(value)
                &&& distinct_below(value, 8)
                &&& front_odd(value)
                &&& n == nibble(value, 8)
                &&& n == nibble(value, 7)
            },
            Inadmissible::NinthNibbleRepeated { position, nibble: n } => {
                &&& all_nonzero(value)
                &&& distinct_below(value, 8)
                &&& front_odd(value)
                &&& ninth_unlike_eighth(value)
                &&& 9 <= position < 16
                &&& n == nibble(value, position as int)
                &&& n == nibble(value, 8)
                &&& ninth_unique_below(value, position as int)
            },
        }
    }

    /// The text of `message`.
    pub open spec fn message_text(self) -> Seq<char> {
        match self {
            Inadmissible::ContainsZeroNibble { .. } => "Nibble is out of valid range (1 to 15)"@,
            Inadmissible::DuplicateNibbleInLower8 { .. } => "Duplicate nibble found in lower 8 nibbles"@,
            Inadmissible::FirstNibbleEven { .. } => "First nibble must be odd"@,
            Inadmissible::NinthNibbleEqualsEighth { .. } => "9th nibble is equal to the 8th nibble"@,
            Inadmissible::NinthNibbleRepeated { .. } => "9th nibble is repeated in upper nibbles"@,
        }
    }

    /// A fixed description of the broken rule.
    pub fn message(&self) -> (r: &'static str)
        ensures
            r@ == self.message_text(),
    {
        match self {
            Inadmissible::ContainsZeroNibble { .. } => "Nibble is out of valid range (1 to 15)",
            Inadmissible::DuplicateNibbleInLower8 { .. } => "Duplicate nibble found in lower 8 nibbles",
            Inadmissible::FirstNibbleEven { .. } => "First nibble must be odd",
            Inadmissible::NinthNibbleEqualsEighth { .. } => "9th nibble is equal to the 8th nibble",
            Inadmissible::NinthNibbleRepeated { .. } => "9th nibble is repeated in upper nibbles",
        }
    }
}

/// A value for which a violation is reported is not admissible.
pub proof fn lemma_reported_not_admissible(value: u64, e: Inadmissible)
    requires
        e.reported_for(value),
    ensures
        !admissible(value),
{
    match e {
        Inadmissible::DuplicateNibbleInLower8 { position, nibble: n } => {
            let k = choose|k: int| 0 <= k < position && #[trigger] nibble(value, k) == n;
            assert(nibble(value, k) == nibble(value, position as int));
        },
        _ => {},
    }
}

/// The least position from `from` to `end - 1` at which `hit` holds, or
/// `end` where it holds at none.
pub open spec fn first_hit(hit: spec_fn(int) -> bool, from: int, end: int) -> int
    decreases end - from,
{
    if from >= end {
        end
    } else if hit(from) {
        from
    } else {
        first_hit(hit, from + 1, end)
    }
}

/// What `first_hit` finds: a position in range with no hit before it.
pub proof fn lemma_first_hit(hit: spec_fn(int) -> bool, from: int, end: int)
    requires
        from <= end,
    ensures
        from <= first_hit(hit, from, end) <= end,
        first_hit(hit, from, end) < end ==> hit(first_hit(hit, from, end)),
        forall|m: int| from <= m < first_hit(hit, from, end) ==> !#[trigger] hit(m),
    decreases end - from,
{
    if from < end && !hit(from) {
        lemma_first_hit(hit, from + 1, end);
    }
}

/// For every value that is not admissible a violation is reported.
pub proof fn lemma_report_exists(value: u64)
    requires
        !admissible(value),
    ensures
        exists|e: Inadmissible| e.reported_for(value),
{
    if !all_nonzero(value) {
        let hit = |i: int| nibble(value, i) == 0;
        lemma_first_hit(hit, 0, 16);
        let p = first_hit(hit, 0, 16);
        if p >= 16 {
            assert forall|i: int| 0 <= i < 16 implies #[trigger] nibble(value, i) != 0 by {
                assert(!hit(i));
            }
        }
        let e = Inadmissible::ContainsZeroNibble { position: p as usize, nibble: 0 };
        assert forall|k: int| 0 <= k < p implies #[trigger] nibble(value, k) != 0 by {
            assert(!hit(k));
        }
        assert(e.reported_for(value));
    } else if !distinct_below(value, 8) {
        let hit = |p: int|
            exists|k: int| 0 <= k < p && #[trigger] nibble(value, k) == nibble(value, p);
        lemma_first_hit(hit, 0, 8);
        let p = first_hit(hit, 0, 8);
        assert forall|i: int, j: int| 0 <= i < j < p implies #[trigger] nibble(value, i)
            != #[trigger] nibble(value, j) by {
            assert(!hit(j));
        }
        assert(p < 8);
        assert(hit(p));
        lemma_nibble_bound(value, p);
        let e = Inadmissible::DuplicateNibbleInLower8 {
            position: p as usize,
            nibble: nibble(value, p) as u8,
        };
        assert(e.reported_for(value));
    } else if !front_odd(value) {
        lemma_nibble_bound(value, 0);
        let e = Inadmissible::FirstNibbleEven { nibble: nibble(value, 0) as u8 };
        assert(e.reported_for(value));
    } else if !ninth_unlike_eighth(value) {
        lemma_nibble_bound(value, 8);
        let e = Inadmissible::NinthNibbleEqualsEighth { nibble: nibble(value, 8) as u8 };
        assert(e.reported_for(value));
    } else {
        let hit = |i: int| nibble(value, i) == nibble(value, 8);
        lemma_first_hit(hit, 9, 16);
        let p = first_hit(hit, 9, 16);
        assert forall|i: int| 9 <= i < p implies #[trigger] nibble(value, i) != nibble(
            value,
            8,
        ) by {
            assert(!hit(i));
        }
        assert(p < 16);
        lemma_nibble_bound(value, p);
        let e = Inadmissible::NinthNibbleRepeated {
            position: p as usize,
            nibble: nibble(value, p) as u8,
        };
        assert(e.reported_for(value));
    }
}

/// At most one violation is reported for a value: the kind, the position
/// and the nibble are all determined by the value.
pub proof fn lemma_report_unique(value: u64, a: Inadmissible, b: Inadmissible)
    requires
        a.reported_for(value),
        b.reported_for(value),
    ensures
        a == b,
{
    match a {
        Inadmissible::DuplicateNibbleInLower8 { position, nibble: n } => {
            let k = choose|k: int| 0 <= k < position && #[trigger] nibble(value, k) == n;
            assert(nibble(value, k) == nibble(value, position as int));
        },
        _ => {},
    }
    match b {
        Inadmissible::DuplicateNibbleInLower8 { position, nibble: n } => {
            let k = choose|k: int| 0 <= k < position && #[trigger] nibble(value, k) == n;
            assert(nibble(value, k) == nibble(value, position as int));
        },
        _ => {},
    }
}

/// The scan order: which kind is reported depends on the first rule, in the
/// fixed order, that the value breaks. A value with a zero nibble is reported
/// as such whatever else is wrong with it.
pub proof fn lemma_scan_order(value: u64, e: Inadmissible)
    requires
        e.reported_for(value),
    ensures
        e is ContainsZeroNibble <==> !all_nonzero(value),
        e is DuplicateNibbleInLower8 <==> all_nonzero(value) && !distinct_below(value, 8),
        e is FirstNibbleEven <==> all_nonzero(value) && distinct_below(value, 8) && !front_odd(
            value,
        ),
        e is NinthNibbleEqualsEighth <==> all_nonzero(value) && distinct_below(value, 8)
            && front_odd(value) && !ninth_unlike_eighth(value),
        e is NinthNibbleRepeated <==> all_nonzero(value) && distinct_below(value, 8) && front_odd(
            value,
        ) && ninth_unlike_eighth(value) && !ninth_unique_below(value, 16),
{
    match e {
        Inadmissible::DuplicateNibbleInLower8 { position, nibble: n } => {
            let k = choose|k: int| 0 <= k < position && #[trigger] nibble(value, k) == n;
            assert(nibble(value, k) == nibble(value, position as int));
        },
        _ => {},
    }
}

/// Checks `key` against the rules, in their fixed order.
///
/// Succeeds exactly on admissible values; otherwise the error is the one
/// report that [`Inadmissible::reported_for`] admits for `key`.
#[must_use]
pub fn check_admissibility(key: u64) -> (r: Result<(), Inadmissible>)
    ensures
        r is Ok <==> admissible(key),
        r matches Err(e) ==> e.reported_for(key),
{
    let mut nibbles: [u8; 16] = [0u8; 16];
    let mut i: usize = 0;
    while i < 16
        invariant
            i <= 16,
            forall|k: int| 0 <= k < i ==> #[trigger] nibbles[k] == nibble(key, k),
        decreases 16 - i,
    {
        proof {
            lemma_nibble_bound(key, i as int);
        }
        nibbles[i] = ((key >> (i * 4)) & 0xF) as u8;
        i += 1;
    }

    // all nibbles are non-zero (1 to 15)
    i = 0;
    while i < 16
        invariant
            i <= 16,
            forall|k: int| 0 <= k < 16 ==> #[trigger] nibbles[k] == nibble(key, k),
            forall|k: int| 0 <= k < i ==> #[trigger] nibble(key, k) != 0,
        decreases 16 - i,
    {
        let n: u8 = nibbles[i];
        if n < 1 || n > 15 {
            proof {
                lemma_nibble_bound(key, i as int);
            }
            return Err(Inadmissible::ContainsZeroNibble { position: i, nibble: n });
        }
        i += 1;
    }

    // lower 8 nibbles (positions 0-7) are unique
    let mut used_digits: [bool; 16] = [false; 16];
    i = 0;
    while i < 8
        invariant
            i <= 8,
            all_nonzero(key),
            forall|k: int| 0 <= k < 16 ==> #[trigger] nibbles[k] == nibble(key, k),
            forall|d: int|
                0 <= d < 16 ==> (#[trigger] used_digits[d] <==> exists|k: int|
                    0 <= k < i && #[trigger] nibble(key, k) == d),
            distinct_below(key, i as int),
        decreases 8 - i,
    {
        let n: u8 = nibbles[i];
        proof {
            lemma_nibble_bound(key, i as int);
        }
        if used_digits[n as usize] {
            return Err(Inadmissible::DuplicateNibbleInLower8 { position: i, nibble: n });
        }
        used_digits[n as usize] = true;
        proof {
            assert forall|d: int| 0 <= d < 16 implies (#[trigger] used_digits[d] <==> exists|k: int|
                0 <= k < i + 1 && #[trigger] nibble(key, k) == d) by {
                if d == n as int {
                    assert(nibble(key, i as int) == d);
                }
            }
        }
        i += 1;
    }

    // first nibble must be odd
    if nibbles[0] % 2 == 0 {
        return Err(Inadmissible::FirstNibbleEven { nibble: nibbles[0] });
    }

    // 9th nibble must differ from the 8th nibble
    if nibbles[8] == nibbles[7] {
        return Err(Inadmissible::NinthNibbleEqualsEighth { nibble: nibbles[8] });
    }

    // 9th nibble must not be repeated in upper 7 nibbles
    i = 9;
    while i < 16
        invariant
            9 <= i <= 16,
            forall|k: int| 0 <= k < 16 ==> #[trigger] nibbles[k] == nibble(key, k),
            all_nonzero(key),
            distinct_below(key, 8),
            front_odd(key),
            ninth_unlike_eighth(key),
            ninth_unique_below(key, i as int),
        decreases 16 - i,
    {
        let n: u8 = nibbles[i];
        if n == nibbles[8] {
            return Err(Inadmissible::NinthNibbleRepeated { position: i, nibble: n });
        }
        i += 1;
    }

    Ok(())
}

/// A generator key: a 64-bit value that obeys the structural rules stated
/// by [`admissible`].
#[derive(Clone, Copy, Debug)]
pub struct Key(u64);

impl View for Key {
    type V = u64;

    closed spec fn view(&self) -> u64 {
        self.0
    }
}

impl Key {
    #[verifier::type_invariant]
    spec fn well_formed(self) -> bool {
        admissible(self.0)
    }

    /// Wraps `key` without checking it. The caller vouches that `key` is
    /// admissible.
    #[must_use]
    #[inline(always)]
    pub fn unchecked(key: u64) -> (r: Self)
        requires
            admissible(key),
        ensures
            r@ == key,
    {
        Key(key)
    }

    /// Wraps `key` if it is admissible, and else reports the first rule that
    /// it breaks.
    #[must_use]
    #[inline(always)]
    pub fn checked(key: u64) -> (r: Result<Self, Inadmissible>)
        ensures
            r is Ok <==> admissible(key),
            r matches Ok(k) ==> k@ == key,
            r matches Err(e) ==> e.reported_for(key),
    {
        match check_admissibility(key) {
            Ok(_) => Ok(Key(key)),
            Err(e) => Err(e),
        }
    }

    /// The key derived from `index`: the same index gives the same key.
    #[must_use]
    #[inline(always)]
    pub fn with_index(index: u64) -> (r: Self)
        ensures
            r@ == derived(index),
            admissible(r@),
    {
        key(index)
    }

    /// The raw 64-bit value, which is admissible.
    #[must_use]
    #[inline(always)]
    pub fn inner(self) -> (r: u64)
        ensures
            r == self@,
            admissible(r),
    {
        proof {
            use_type_invariant(&self);
        }
        self.0
    }
}

} // verus!
