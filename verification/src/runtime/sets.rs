//! Set objects: unique elements kept in the order they first appeared.
//!
//! A set compares its elements as the language compares values: integers by
//! their value, floats by their bit pattern, strings by their content. Only
//! scalars and `none` can be elements; tables, containers and error objects
//! cannot. Duplicates are removed deterministically, keeping each element
//! where it first occurred, and every set operation orders its result by its
//! operands alone:
//!
//! - union: the left operand in order, then what the right adds, in its order;
//! - intersection and difference: the left operand filtered, in its order;
//! - symmetric difference: what only the left holds, then what only the right
//!   holds;
//! - equality and the subset relations do not depend on order.

use vstd::prelude::*;
use crate::runtime::errors::RuntimeError;
use crate::runtime::memory::RuntimeTypeTag;
use crate::runtime::value::{duplicate, equal_values, type_label_of, RuntimeValue, ValueKey};

verus! {

/// Scalars and `none` can be set elements; tables, containers and error
/// objects cannot.
pub open spec fn key_hashable(key: ValueKey) -> bool {
    !(key is Table) && !(key is Object) && !(key is Error)
}

/// The elements of a sequence as keys.
pub open spec fn keys_of(elements: Seq<RuntimeValue>) -> Seq<ValueKey> {
    elements.map_values(|e: RuntimeValue| e@)
}

/// Returns whether a value can be a set element or a dictionary key: scalars
/// and `none` can; tables, containers and error objects cannot, as their
/// contents may change without the set noticing.
pub fn is_hashable(value: &RuntimeValue) -> (r: bool)
    ensures
        r == key_hashable(value@),
{
    match value {
        RuntimeValue::Table(..) => false,
        RuntimeValue::Object(..) => false,
        RuntimeValue::Error(_) => false,
        _ => true,
    }
}

/// Appending an element appends its key.
proof fn lemma_keys_push(s: Seq<RuntimeValue>, e: RuntimeValue)
    ensures
        keys_of(s.push(e)) == keys_of(s).push(e@),
{
    assert(keys_of(s.push(e)) =~= keys_of(s).push(e@));
}

/// Returns whether `elements` holds an element equal to `value`.
fn holds(elements: &Vec<RuntimeValue>, value: &RuntimeValue) -> (r: bool)
    ensures
        r == keys_of(elements@).contains(value@),
{
    let mut i: usize = 0;
    while i < elements.len()
        invariant
            i <= elements.len(),
            forall|j: int| 0 <= j < i ==> keys_of(elements@)[j] != value@,
        decreases elements.len() - i,
    {
        if equal_values(&elements[i], value) {
            assert(keys_of(elements@)[i as int] == value@);
            return true;
        }
        i += 1;
    }
    proof {
        if keys_of(elements@).contains(value@) {
            let j = choose|j: int| 0 <= j < keys_of(elements@).len() && keys_of(elements@)[j] == value@;
            assert(keys_of(elements@)[j] != value@);
        }
    }
    false
}

/// Removes repeated elements, keeping each where it first occurs.
pub open spec fn dedup(keys: Seq<ValueKey>) -> Seq<ValueKey>
    decreases keys.len(),
{
    if keys.len() == 0 {
        Seq::empty()
    } else {
        let kept = dedup(keys.drop_last());
        if kept.contains(keys.last()) {
            kept
        } else {
            kept.push(keys.last())
        }
    }
}

/// Whether every key can be a set element.
pub open spec fn all_hashable(keys: Seq<ValueKey>) -> bool {
    forall|i: int| 0 <= i < keys.len() ==> key_hashable(#[trigger] keys[i])
}

/// The first element that cannot be a set element sits at `i`.
pub open spec fn first_unhashable_at(keys: Seq<ValueKey>, i: int) -> bool {
    &&& 0 <= i < keys.len()
    &&& !key_hashable(keys[i])
    &&& forall|j: int| 0 <= j < i ==> key_hashable(#[trigger] keys[j])
}

/// Appending `x` adds exactly `x` to what a sequence contains.
proof fn lemma_push_contains(s: Seq<ValueKey>, x: ValueKey, k: ValueKey)
    ensures
        s.push(x).contains(k) <==> (s.contains(k) || k == x),
{
    if s.contains(k) {
        let i = choose|i: int| 0 <= i < s.len() && s[i] == k;
        assert(s.push(x)[i] == k);
    }
    if k == x {
        assert(s.push(x)[s.len() as int] == k);
    }
    if s.push(x).contains(k) {
        let i = choose|i: int| 0 <= i < s.push(x).len() && s.push(x)[i] == k;
        if i < s.len() {
            assert(s[i] == k);
        }
    }
}

/// A sequence contains what its prefix without the last element contains,
/// and that last element.
proof fn lemma_drop_last_contains(s: Seq<ValueKey>, k: ValueKey)
    requires
        s.len() > 0,
    ensures
        s.contains(k) <==> (s.drop_last().contains(k) || k == s.last()),
{
    assert(s.drop_last().push(s.last()) =~= s);
    lemma_push_contains(s.drop_last(), s.last(), k);
}

/// What removing repeats keeps: no repeats, the same elements, and each kept
/// element from its first occurrence onwards in the input order.
pub proof fn lemma_dedup_keeps_elements(keys: Seq<ValueKey>)
    ensures
        dedup(keys).no_duplicates(),
        forall|k: ValueKey| dedup(keys).contains(k) <==> keys.contains(k),
        dedup(keys).len() <= keys.len(),
    decreases keys.len(),
{
    if keys.len() > 0 {
        let rest = keys.drop_last();
        let kept = dedup(rest);
        lemma_dedup_keeps_elements(rest);
        assert forall|k: ValueKey| dedup(keys).contains(k) <==> keys.contains(k) by {
            lemma_drop_last_contains(keys, k);
            lemma_push_contains(kept, keys.last(), k);
        }
        if !kept.contains(keys.last()) {
            let pushed = kept.push(keys.last());
            assert forall|i: int, j: int| 0 <= i < pushed.len() && 0 <= j < pushed.len() && i != j
                implies pushed[i] != pushed[j] by {
                if i < kept.len() && j < kept.len() {
                    assert(kept[i] != kept[j]);
                } else if i < kept.len() {
                    assert(pushed[i] == kept[i]);
                } else {
                    assert(pushed[j] == kept[j]);
                }
            }
        }
    }
}

/// Removing repeats from a sequence without repeats changes nothing; so a
/// set rebuilt from its own elements is the same set.
pub proof fn lemma_dedup_of_unique(keys: Seq<ValueKey>)
    requires
        keys.no_duplicates(),
    ensures
        dedup(keys) == keys,
    decreases keys.len(),
{
    if keys.len() > 0 {
        let rest = keys.drop_last();
        assert(rest.no_duplicates());
        lemma_dedup_of_unique(rest);
        lemma_dedup_keeps_elements(rest);
        assert(!rest.contains(keys.last()));
        assert(rest.push(keys.last()) =~= keys);
    }
}

/// The keys of `keys` whose presence in `other` is `present`, in order.
pub open spec fn selected(keys: Seq<ValueKey>, other: Seq<ValueKey>, present: bool) -> Seq<ValueKey> {
    keys.filter(|x: ValueKey| other.contains(x) == present)
}

/// Union: `left` in order, then what `right` adds, in its order.
pub open spec fn union_keys(left: Seq<ValueKey>, right: Seq<ValueKey>) -> Seq<ValueKey> {
    left + selected(right, left, false)
}

/// Intersection: the elements of `left` that `right` holds, in `left`'s order.
pub open spec fn intersection_keys(left: Seq<ValueKey>, right: Seq<ValueKey>) -> Seq<ValueKey> {
    selected(left, right, true)
}

/// Difference: the elements of `left` that `right` lacks, in `left`'s order.
pub open spec fn difference_keys(left: Seq<ValueKey>, right: Seq<ValueKey>) -> Seq<ValueKey> {
    selected(left, right, false)
}

/// Symmetric difference: what only `left` holds, then what only `right` holds.
pub open spec fn symmetric_difference_keys(left: Seq<ValueKey>, right: Seq<ValueKey>) -> Seq<ValueKey> {
    selected(left, right, false) + selected(right, left, false)
}

/// Every element of `part` is an element of `whole`.
pub open spec fn includes(whole: Seq<ValueKey>, part: Seq<ValueKey>) -> bool {
    forall|k: ValueKey| part.contains(k) ==> whole.contains(k)
}

/// Every element of `part` is in `whole` and some element of `whole` is not
/// in `part`.
pub open spec fn proper_inclusion(whole: Seq<ValueKey>, part: Seq<ValueKey>) -> bool {
    includes(whole, part) && !includes(part, whole)
}

/// Two sets hold the same elements.
pub open spec fn same_elements(a: Seq<ValueKey>, b: Seq<ValueKey>) -> bool {
    includes(b, a) && includes(a, b)
}

/// A proper subset is a subset that is not equal: `is_proper_subset`
/// answers exactly what `is_subset` and not `equals` answer together, for
/// any two sets.
pub proof fn lemma_proper_subset_is_unequal_subset(a: Seq<ValueKey>, b: Seq<ValueKey>)
    ensures
        proper_inclusion(b, a) == (includes(b, a) && !same_elements(a, b)),
        proper_inclusion(a, b) == (includes(a, b) && !same_elements(b, a)),
{
}

/// What selecting keeps: exactly the elements with the asked presence, no
/// repeats where the input had none, and only hashable elements where the
/// input had only those.
pub proof fn lemma_selected_facts(keys: Seq<ValueKey>, other: Seq<ValueKey>, present: bool)
    ensures
        forall|k: ValueKey| selected(keys, other, present).contains(k)
            <==> (keys.contains(k) && other.contains(k) == present),
        keys.no_duplicates() ==> selected(keys, other, present).no_duplicates(),
        all_hashable(keys) ==> all_hashable(selected(keys, other, present)),
    decreases keys.len(),
{
    if keys.len() > 0 {
        let rest = keys.drop_last();
        let x = keys.last();
        let sub = selected(rest, other, present);
        lemma_selected_facts(rest, other, present);
        let pred = |y: ValueKey| other.contains(y) == present;
        assert(selected(keys, other, present) == keys.filter(pred));
        assert(sub == rest.filter(pred));
        assert(rest.push(x) =~= keys);
        rest.lemma_filter_push(x, pred);
        assert(keys.filter(pred) == (if pred(x) {
            rest.filter(pred).push(x)
        } else {
            rest.filter(pred)
        }));
        assert forall|k: ValueKey| selected(keys, other, present).contains(k)
            <==> (keys.contains(k) && other.contains(k) == present) by {
            lemma_drop_last_contains(keys, k);
            lemma_push_contains(sub, x, k);
        }
        if keys.no_duplicates() {
            assert(rest.no_duplicates());
            if other.contains(x) == present {
                let pushed = sub.push(x);
                assert(!rest.contains(x)) by {
                    if rest.contains(x) {
                        let i = choose|i: int| 0 <= i < rest.len() && rest[i] == x;
                        assert(keys[i] == keys[keys.len() - 1]);
                    }
                }
                assert(!sub.contains(x));
                assert forall|i: int, j: int| 0 <= i < pushed.len() && 0 <= j < pushed.len() && i != j
                    implies pushed[i] != pushed[j] by {
                    if i < sub.len() && j < sub.len() {
                        assert(sub[i] != sub[j]);
                    } else if i < sub.len() {
                        assert(pushed[i] == sub[i]);
                    } else {
                        assert(pushed[j] == sub[j]);
                    }
                }
            }
        }
        if all_hashable(keys) {
            assert forall|i: int| 0 <= i < rest.len() implies key_hashable(#[trigger] rest[i]) by {
                assert(rest[i] == keys[i]);
            }
            assert(key_hashable(keys[keys.len() - 1]));
        }
    }
}

/// Joining two sequences without repeats and without common elements gives a
/// sequence without repeats that holds the elements of both.
pub proof fn lemma_disjoint_concat(a: Seq<ValueKey>, b: Seq<ValueKey>)
    requires
        a.no_duplicates(),
        b.no_duplicates(),
        forall|k: ValueKey| a.contains(k) ==> !b.contains(k),
    ensures
        (a + b).no_duplicates(),
        forall|k: ValueKey| (a + b).contains(k) <==> (a.contains(k) || b.contains(k)),
        all_hashable(a) && all_hashable(b) ==> all_hashable(a + b),
{
    let c = a + b;
    assert forall|i: int, j: int| 0 <= i < c.len() && 0 <= j < c.len() && i != j
        implies c[i] != c[j] by {
        if i < a.len() && j < a.len() {
            assert(a[i] != a[j]);
        } else if i >= a.len() && j >= a.len() {
            assert(b[i - a.len()] != b[j - a.len()]);
        } else if i < a.len() {
            assert(a.contains(c[i]));
            assert(b[j - a.len()] == c[j]);
            assert(b.contains(c[j]));
        } else {
            assert(a.contains(c[j]));
            assert(b[i - a.len()] == c[i]);
            assert(b.contains(c[i]));
        }
    }
    assert forall|k: ValueKey| c.contains(k) <==> (a.contains(k) || b.contains(k)) by {
        if a.contains(k) {
            let i = choose|i: int| 0 <= i < a.len() && a[i] == k;
            assert(c[i] == k);
        }
        if b.contains(k) {
            let i = choose|i: int| 0 <= i < b.len() && b[i] == k;
            assert(c[a.len() + i] == k);
        }
        if c.contains(k) {
            let i = choose|i: int| 0 <= i < c.len() && c[i] == k;
            if i < a.len() {
                assert(a[i] == k);
            } else {
                assert(b[i - a.len()] == k);
            }
        }
    }
    if all_hashable(a) && all_hashable(b) {
        assert forall|i: int| 0 <= i < c.len() implies key_hashable(#[trigger] c[i]) by {
            if i < a.len() {
                assert(key_hashable(a[i]));
            } else {
                assert(key_hashable(b[i - a.len()]));
            }
        }
    }
}

/// Two sequences without repeats, of one length, one inside the other, hold
/// the same elements.
pub proof fn lemma_equal_length_inclusion(part: Seq<ValueKey>, whole: Seq<ValueKey>)
    requires
        part.no_duplicates(),
        whole.no_duplicates(),
        includes(whole, part),
    ensures
        part.len() <= whole.len(),
        part.len() == whole.len() ==> includes(part, whole),
{
    part.unique_seq_to_set();
    whole.unique_seq_to_set();
    vstd::seq_lib::seq_to_set_is_finite(part);
    vstd::seq_lib::seq_to_set_is_finite(whole);
    assert(part.to_set().subset_of(whole.to_set()));
    vstd::set_lib::lemma_len_subset(part.to_set(), whole.to_set());
    if part.len() == whole.len() {
        vstd::set_lib::lemma_subset_equality(part.to_set(), whole.to_set());
        assert forall|k: ValueKey| whole.contains(k) implies part.contains(k) by {
            assert(whole.to_set().contains(k));
            assert(part.to_set().contains(k));
        }
    }
}

/// Appends, in order, the elements of `source` whose presence in `other` is
/// `present`.
fn append_selected(out: &mut Vec<RuntimeValue>, source: &Vec<RuntimeValue>, other: &Vec<RuntimeValue>, present: bool)
    ensures
        keys_of(final(out)@) == keys_of(old(out)@) + selected(keys_of(source@), keys_of(other@), present),
{
    let ghost start = keys_of(out@);
    let ghost keys = keys_of(source@);
    let ghost pred = |y: ValueKey| keys_of(other@).contains(y) == present;
    let mut i: usize = 0;
    while i < source.len()
        invariant
            i <= source.len(),
            keys == keys_of(source@),
            pred == (|y: ValueKey| keys_of(other@).contains(y) == present),
            keys_of(out@) == start + keys.take(i as int).filter(pred),
        decreases source.len() - i,
    {
        proof {
            assert(keys.take(i as int).push(keys[i as int]) =~= keys.take(i as int + 1));
            keys.take(i as int).lemma_filter_push(keys[i as int], pred);
        }
        if holds(other, &source[i]) == present {
            let copy = duplicate(&source[i]);
            let ghost before = out@;
            out.push(copy);
            proof {
                lemma_keys_push(before, copy);
                assert(keys_of(out@) =~= start + keys.take(i as int).filter(pred).push(keys[i as int]));
            }
        }
        i += 1;
    }
    proof {
        assert(keys.take(source.len() as int) =~= keys);
        assert(selected(keys, keys_of(other@), present) == keys.filter(pred));
    }
}

/// Returns whether `whole` holds every element of `part`.
fn holds_all(whole: &Vec<RuntimeValue>, part: &Vec<RuntimeValue>) -> (r: bool)
    ensures
        r == includes(keys_of(whole@), keys_of(part@)),
{
    let mut i: usize = 0;
    while i < part.len()
        invariant
            i <= part.len(),
            forall|j: int| 0 <= j < i ==> keys_of(whole@).contains(#[trigger] keys_of(part@)[j]),
        decreases part.len() - i,
    {
        if !holds(whole, &part[i]) {
            proof {
                assert(keys_of(part@).contains(keys_of(part@)[i as int]));
            }
            return false;
        }
        i += 1;
    }
    proof {
        assert forall|k: ValueKey| keys_of(part@).contains(k) implies keys_of(whole@).contains(k) by {
            let j = choose|j: int| 0 <= j < keys_of(part@).len() && keys_of(part@)[j] == k;
        }
    }
    true
}

/// Copies a sequence of elements.
fn copy_all(source: &Vec<RuntimeValue>) -> (r: Vec<RuntimeValue>)
    ensures
        keys_of(r@) == keys_of(source@),
{
    let mut out: Vec<RuntimeValue> = Vec::new();
    let mut i: usize = 0;
    while i < source.len()
        invariant
            i <= source.len(),
            keys_of(out@) == keys_of(source@).take(i as int),
        decreases source.len() - i,
    {
        let copy = duplicate(&source[i]);
        let ghost before = out@;
        out.push(copy);
        proof {
            lemma_keys_push(before, copy);
            assert(keys_of(out@) =~= keys_of(source@).take(i as int + 1));
        }
        i += 1;
    }
    proof {
        assert(keys_of(source@).take(source.len() as int) =~= keys_of(source@));
    }
    out
}

/// Removes repeated elements, keeping each where it first occurs.
fn deduplicate(elements: Vec<RuntimeValue>) -> (r: Vec<RuntimeValue>)
    ensures
        keys_of(r@) == dedup(keys_of(elements@)),
{
    let ghost keys = keys_of(elements@);
    let mut unique: Vec<RuntimeValue> = Vec::new();
    let mut n: usize = 0;
    while n < elements.len()
        invariant
            n <= elements.len(),
            keys == keys_of(elements@),
            keys_of(unique@) == dedup(keys.take(n as int)),
        decreases elements.len() - n,
    {
        proof {
            assert(keys.take(n as int + 1).drop_last() =~= keys.take(n as int));
            assert(keys.take(n as int + 1).last() == keys[n as int]);
        }
        if !holds(&unique, &elements[n]) {
            let copy = duplicate(&elements[n]);
            unique.push(copy);
            proof {
                assert(keys_of(unique@) =~= dedup(keys.take(n as int)).push(keys[n as int]));
            }
        }
        n += 1;
    }
    proof {
        assert(keys.take(elements.len() as int) =~= keys);
    }
    unique
}

/// A set: duplicate-free hashable elements in the order they first appeared.
#[derive(Debug)]
pub struct SetHandle {
    elements: Vec<RuntimeValue>,
}

impl View for SetHandle {
    type V = Seq<ValueKey>;

    closed spec fn view(&self) -> Seq<ValueKey> {
        keys_of(self.elements@)
    }
}

impl SetHandle {
    #[verifier::type_invariant]
    spec fn well_formed(self) -> bool {
        &&& keys_of(self.elements@).no_duplicates()
        &&& all_hashable(keys_of(self.elements@))
    }

    /// Builds a set from `elements`, keeping the first of equal elements; an
    /// element that cannot be hashed is refused, the first such one named.
    pub fn new(elements: Vec<RuntimeValue>) -> (r: Result<SetHandle, RuntimeError>)
        ensures
            all_hashable(keys_of(elements@)) <==> r is Ok,
            r is Ok ==> r->Ok_0@ == dedup(keys_of(elements@)),
            forall|i: int| first_unhashable_at(keys_of(elements@), i) ==> r == Err::<SetHandle, RuntimeError>(
                RuntimeError::UnhashableElement { type_label: type_label_of(keys_of(elements@)[i]) },
            ),
    {
        let ghost keys = keys_of(elements@);
        let mut i: usize = 0;
        while i < elements.len()
            invariant
                i <= elements.len(),
                keys == keys_of(elements@),
                forall|j: int| 0 <= j < i ==> key_hashable(#[trigger] keys[j]),
            decreases elements.len() - i,
        {
            if !is_hashable(&elements[i]) {
                let error = RuntimeError::UnhashableElement { type_label: elements[i].type_label() };
                proof {
                    assert(first_unhashable_at(keys, i as int));
                    assert forall|k: int| first_unhashable_at(keys, k) implies k == i by {
                        if k < i {
                            assert(key_hashable(keys[k]));
                        } else if k > i {
                            assert(key_hashable(keys[i as int]));
                        }
                    }
                }
                return Err(error);
            }
            i += 1;
        }
        let unique = deduplicate(elements);
        proof {
            lemma_dedup_keeps_elements(keys);
            assert forall|j: int| 0 <= j < keys_of(unique@).len() implies key_hashable(
                #[trigger] keys_of(unique@)[j],
            ) by {
                let x = keys_of(unique@)[j];
                assert(dedup(keys)[j] == x);
                assert(dedup(keys).contains(x));
                assert(keys.contains(x));
                let k = choose|k: int| 0 <= k < keys.len() && keys[k] == x;
                assert(key_hashable(keys[k]));
            }
            assert forall|k: int| !first_unhashable_at(keys, k) by {
                if 0 <= k < keys.len() {
                    assert(key_hashable(keys[k]));
                }
            }
        }
        Ok(SetHandle { elements: unique })
    }

    /// Returns the number of distinct elements.
    pub fn len(&self) -> (r: usize)
        ensures
            r == self@.len(),
    {
        self.elements.len()
    }

    /// Returns whether the set has no element.
    pub fn is_empty(&self) -> (r: bool)
        ensures
            r == (self@.len() == 0),
    {
        self.elements.len() == 0
    }

    /// Returns whether the set holds an element equal to `value`.
    pub fn contains(&self, value: &RuntimeValue) -> (r: Result<bool, RuntimeError>)
        ensures
            r == Ok::<bool, RuntimeError>(self@.contains(value@)),
    {
        Ok(holds(&self.elements, value))
    }

    /// Returns a copy of the elements in the order they first appeared; the
    /// order is how the set was built, not part of what the set means. The
    /// elements never repeat and can all be hashed, so building a set from
    /// them gives the same set back.
    pub fn elements(&self) -> (r: Vec<RuntimeValue>)
        ensures
            keys_of(r@) == self@,
            self@.no_duplicates(),
            all_hashable(self@),
            dedup(self@) == self@,
    {
        proof {
            use_type_invariant(self);
            lemma_dedup_of_unique(self@);
        }
        copy_all(&self.elements)
    }

    /// Returns the object type tag of a set.
    pub fn type_tag(&self) -> (r: RuntimeTypeTag)
        ensures
            r == RuntimeTypeTag::SetObject,
    {
        RuntimeTypeTag::SetObject
    }

    /// Union: the elements of `self` in order, then those of `other` that
    /// `self` lacks, in `other`'s order.
    pub fn union(&self, other: &Self) -> (r: Result<SetHandle, RuntimeError>)
        ensures
            r is Ok,
            r->Ok_0@ == union_keys(self@, other@),
            forall|k: ValueKey| r->Ok_0@.contains(k) <==> (self@.contains(k) || other@.contains(k)),
    {
        proof {
            use_type_invariant(self);
            use_type_invariant(other);
        }
        let mut merged = copy_all(&self.elements);
        append_selected(&mut merged, &other.elements, &self.elements, false);
        proof {
            lemma_selected_facts(other@, self@, false);
            lemma_disjoint_concat(self@, selected(other@, self@, false));
        }
        Ok(SetHandle { elements: merged })
    }

    /// Intersection: the elements of `self` that `other` holds, in `self`'s
    /// order.
    pub fn intersection(&self, other: &Self) -> (r: Result<SetHandle, RuntimeError>)
        ensures
            r is Ok,
            r->Ok_0@ == intersection_keys(self@, other@),
            forall|k: ValueKey| r->Ok_0@.contains(k) <==> (self@.contains(k) && other@.contains(k)),
    {
        proof {
            use_type_invariant(self);
            use_type_invariant(other);
        }
        let mut kept: Vec<RuntimeValue> = Vec::new();
        append_selected(&mut kept, &self.elements, &other.elements, true);
        proof {
            lemma_selected_facts(self@, other@, true);
            assert(keys_of(kept@) =~= selected(self@, other@, true));
        }
        Ok(SetHandle { elements: kept })
    }

    /// Difference: the elements of `self` that `other` lacks, in `self`'s
    /// order.
    pub fn difference(&self, other: &Self) -> (r: Result<SetHandle, RuntimeError>)
        ensures
            r is Ok,
            r->Ok_0@ == difference_keys(self@, other@),
            forall|k: ValueKey| r->Ok_0@.contains(k) <==> (self@.contains(k) && !other@.contains(k)),
    {
        proof {
            use_type_invariant(self);
            use_type_invariant(other);
        }
        let mut kept: Vec<RuntimeValue> = Vec::new();
        append_selected(&mut kept, &self.elements, &other.elements, false);
        proof {
            lemma_selected_facts(self@, other@, false);
            assert(keys_of(kept@) =~= selected(self@, other@, false));
        }
        Ok(SetHandle { elements: kept })
    }

    /// Symmetric difference: what only `self` holds, in its order, then what
    /// only `other` holds, in its order.
    pub fn symmetric_difference(&self, other: &Self) -> (r: Result<SetHandle, RuntimeError>)
        ensures
            r is Ok,
            r->Ok_0@ == symmetric_difference_keys(self@, other@),
            forall|k: ValueKey| r->Ok_0@.contains(k) <==> (self@.contains(k) != other@.contains(k)),
    {
        proof {
            use_type_invariant(self);
            use_type_invariant(other);
        }
        let mut merged: Vec<RuntimeValue> = Vec::new();
        append_selected(&mut merged, &self.elements, &other.elements, false);
        append_selected(&mut merged, &other.elements, &self.elements, false);
        proof {
            lemma_selected_facts(self@, other@, false);
            lemma_selected_facts(other@, self@, false);
            lemma_disjoint_concat(selected(self@, other@, false), selected(other@, self@, false));
            assert(keys_of(merged@) =~= symmetric_difference_keys(self@, other@));
        }
        Ok(SetHandle { elements: merged })
    }

    /// Set equality: the same number of elements and every element of `self`
    /// in `other`, which is the same as holding the same elements in any
    /// order; which object holds them does not matter.
    pub fn equals(&self, other: &Self) -> (r: Result<bool, RuntimeError>)
        ensures
            r == Ok::<bool, RuntimeError>(self@.len() == other@.len() && includes(other@, self@)),
            r == Ok::<bool, RuntimeError>(same_elements(self@, other@)),
    {
        proof {
            use_type_invariant(self);
            use_type_invariant(other);
        }
        let result = self.elements.len() == other.elements.len() && holds_all(&other.elements, &self.elements);
        proof {
            if includes(other@, self@) {
                lemma_equal_length_inclusion(self@, other@);
            }
            if includes(self@, other@) {
                lemma_equal_length_inclusion(other@, self@);
            }
        }
        Ok(result)
    }

    /// Whether every element of `self` is in `other`; equal sets count.
    pub fn is_subset(&self, other: &Self) -> (r: Result<bool, RuntimeError>)
        ensures
            r == Ok::<bool, RuntimeError>(includes(other@, self@)),
    {
        Ok(holds_all(&other.elements, &self.elements))
    }

    /// Whether `self` is a subset of `other` with fewer elements, which is
    /// the same as a subset that `other` is not a subset of.
    pub fn is_proper_subset(&self, other: &Self) -> (r: Result<bool, RuntimeError>)
        ensures
            r == Ok::<bool, RuntimeError>(self@.len() < other@.len() && includes(other@, self@)),
            r == Ok::<bool, RuntimeError>(proper_inclusion(other@, self@)),
    {
        proof {
            use_type_invariant(self);
            use_type_invariant(other);
        }
        let result = self.elements.len() < other.elements.len() && holds_all(&other.elements, &self.elements);
        proof {
            if includes(other@, self@) {
                lemma_equal_length_inclusion(self@, other@);
            }
            if includes(self@, other@) {
                lemma_equal_length_inclusion(other@, self@);
            }
        }
        Ok(result)
    }

    /// Whether every element of `other` is in `self`; equal sets count.
    pub fn is_superset(&self, other: &Self) -> (r: Result<bool, RuntimeError>)
        ensures
            r == Ok::<bool, RuntimeError>(includes(self@, other@)),
    {
        other.is_subset(self)
    }

    /// Whether `other` is a proper subset of `self`.
    pub fn is_proper_superset(&self, other: &Self) -> (r: Result<bool, RuntimeError>)
        ensures
            r == Ok::<bool, RuntimeError>(other@.len() < self@.len() && includes(self@, other@)),
            r == Ok::<bool, RuntimeError>(proper_inclusion(self@, other@)),
    {
        other.is_proper_subset(self)
    }
}

} // verus!
