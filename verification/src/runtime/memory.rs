//! Object type tags, layouts, reference counting and the lifecycle of an
//! object header.
//!
//! An object header holds a strong count, a weak count and whether the payload
//! was released. A new object starts with one strong reference and one
//! implicit weak reference; the implicit weak reference keeps the header
//! readable for weak handles after the last strong reference released the
//! payload, and the header itself goes once the weak count reaches zero.

use vstd::prelude::*;
use vstd::layout::{align_of, size_of};
use crate::runtime::errors::RuntimeError;

verus! {

/// Type tag of a runtime heap object.
#[derive(Clone, Copy, Debug, PartialEq, Eq, Structural, Hash)]
pub enum RuntimeTypeTag {
    /// Immutable string.
    String,
    /// Table instance or singleton table.
    Table,
    /// Array.
    Array,
    /// Tuple.
    Tuple,
    /// Unordered dictionary table.
    DictTable,
    /// Dictionary column with a stable order.
    DictColumn,
    /// Set.
    SetObject,
    /// A user object tag kept for later runtime extensions.
    Custom(u32),
}

impl RuntimeTypeTag {
    /// The stable debug name of the tag.
    pub open spec fn name(self) -> &'static str {
        match self {
            RuntimeTypeTag::String => "str",
            RuntimeTypeTag::Table => "table",
            RuntimeTypeTag::Array => "array",
            RuntimeTypeTag::Tuple => "tuple",
            RuntimeTypeTag::DictTable => "dict_table",
            RuntimeTypeTag::DictColumn => "dict_column",
            RuntimeTypeTag::SetObject => "set",
            RuntimeTypeTag::Custom(_) => "custom",
        }
    }

    /// Returns the stable debug name of the tag.
    pub fn as_str(self) -> (r: &'static str)
        ensures
            r == self.name(),
    {
        match self {
            RuntimeTypeTag::String => "str",
            RuntimeTypeTag::Table => "table",
            RuntimeTypeTag::Array => "array",
            RuntimeTypeTag::Tuple => "tuple",
            RuntimeTypeTag::DictTable => "dict_table",
            RuntimeTypeTag::DictColumn => "dict_column",
            RuntimeTypeTag::SetObject => "set",
            RuntimeTypeTag::Custom(_) => "custom",
        }
    }
}

/// Layout summary kept in an object header.
#[derive(Clone, Copy, Debug, PartialEq, Eq, Structural, Hash)]
pub struct ObjectLayout {
    /// Type tag.
    pub type_tag: RuntimeTypeTag,
    /// Payload size in bytes.
    pub payload_size: usize,
    /// Payload alignment in bytes.
    pub payload_align: usize,
}

impl ObjectLayout {
    /// Describes the layout of the Rust type `T` under a type tag.
    pub fn for_type<T>(type_tag: RuntimeTypeTag) -> (r: Self)
        ensures
            r.type_tag == type_tag,
            r.payload_size == size_of::<T>(),
            r.payload_align == align_of::<T>(),
    {
        ObjectLayout {
            type_tag,
            payload_size: core::mem::size_of::<T>(),
            payload_align: core::mem::align_of::<T>(),
        }
    }
}

/// Checked arithmetic of a reference-count strategy.
///
/// Every strategy, present or future, refuses to overflow or underflow a count
/// and reports a broken reference-count invariant instead.
pub trait RefCountStrategy {
    /// Adds one to a count and returns the new value.
    fn increment(&self, current: usize) -> (r: Result<usize, RuntimeError>)
        ensures
            current < usize::MAX ==> r == Ok::<usize, RuntimeError>((current + 1) as usize),
            current == usize::MAX ==> r is Err && r->Err_0 is RefcountInvariant,
    ;

    /// Subtracts one from a count and returns the new value.
    fn decrement(&self, current: usize) -> (r: Result<usize, RuntimeError>)
        ensures
            current > 0 ==> r == Ok::<usize, RuntimeError>((current - 1) as usize),
            current == 0 ==> r is Err && r->Err_0 is RefcountInvariant,
    ;

    /// Returns the name of the strategy.
    fn name(&self) -> &'static str;
}

/// The single-threaded, non-atomic reference-count strategy.
#[derive(Clone, Copy, Debug)]
pub struct NonAtomicRefCount;

impl Default for NonAtomicRefCount {
    /// Returns the strategy value.
    fn default() -> (r: Self) {
        NonAtomicRefCount
    }
}

impl RefCountStrategy for NonAtomicRefCount {
    /// Adds one with a checked addition.
    fn increment(&self, current: usize) -> (r: Result<usize, RuntimeError>) {
        match current.checked_add(1) {
            Some(next) => Ok(next),
            None => Err(RuntimeError::RefcountInvariant { message: "强/弱引用计数溢出" }),
        }
    }

    /// Subtracts one with a checked subtraction.
    fn decrement(&self, current: usize) -> (r: Result<usize, RuntimeError>) {
        match current.checked_sub(1) {
            Some(next) => Ok(next),
            None => Err(RuntimeError::RefcountInvariant { message: "强/弱引用计数下溢" }),
        }
    }

    /// Returns `non-atomic`.
    fn name(&self) -> (r: &'static str)
        ensures
            r == "non-atomic",
    {
        "non-atomic"
    }
}

/// The reference-count strategies that can be selected.
#[derive(Clone, Copy, Debug, PartialEq, Eq, Structural, Hash)]
pub enum CounterStrategyKind {
    /// Single-threaded non-atomic strategy.
    NonAtomic,
}

impl CounterStrategyKind {
    /// Returns the strategy implementation.
    pub fn implementation(self) -> (r: &'static dyn RefCountStrategy) {
        match self {
            CounterStrategyKind::NonAtomic => &NonAtomicRefCount,
        }
    }

    /// Returns the stable name of the strategy.
    pub fn as_str(self) -> (r: &'static str)
        ensures
            r == "non-atomic",
    {
        match self {
            CounterStrategyKind::NonAtomic => NonAtomicRefCount.name(),
        }
    }
}


/// The counting state of an object header: strong references, weak
/// references (the implicit one included) and whether the payload is gone.
#[derive(Clone, Copy, Debug, PartialEq, Eq, Structural)]
pub struct HeaderCounts {
    /// Strong references.
    pub strong: usize,
    /// Weak references, the implicit one included.
    pub weak: usize,
    /// Whether the payload was released.
    pub destroyed: bool,
}

/// Counts that an object header can have: the payload is released exactly
/// when no strong reference is left, and a live object keeps its implicit weak
/// reference.
pub open spec fn counts_consistent(c: HeaderCounts) -> bool {
    &&& c.destroyed <==> c.strong == 0
    &&& !c.destroyed ==> c.weak >= 1
}

/// The counts after taking one more strong reference.
pub open spec fn counts_after_clone(c: HeaderCounts) -> HeaderCounts {
    HeaderCounts { strong: (c.strong + 1) as usize, ..c }
}

/// The counts after taking one more weak reference.
pub open spec fn counts_after_downgrade(c: HeaderCounts) -> HeaderCounts {
    HeaderCounts { weak: (c.weak + 1) as usize, ..c }
}

/// The counts after releasing one strong reference: the last one releases the
/// payload together with the implicit weak reference.
pub open spec fn counts_after_release(c: HeaderCounts) -> HeaderCounts {
    if c.strong == 1 {
        HeaderCounts { strong: 0, weak: (c.weak - 1) as usize, destroyed: true }
    } else {
        HeaderCounts { strong: (c.strong - 1) as usize, ..c }
    }
}

/// The counts after releasing one weak reference.
pub open spec fn counts_after_weak_release(c: HeaderCounts) -> HeaderCounts {
    HeaderCounts { weak: (c.weak - 1) as usize, ..c }
}

/// What releasing a strong reference asks of the object's owner.
#[derive(Clone, Copy, Debug, PartialEq, Eq, Structural)]
pub enum ReleaseAction {
    /// Other strong references remain; nothing else happens.
    Retained,
    /// This was the last strong reference: the payload runs its release hook
    /// and is dropped, and the header is freed too when no weak handle is left.
    PayloadReleased {
        /// Whether the header itself is to be freed.
        free_header: bool,
    },
}

/// The counting state of a runtime object header.
#[derive(Debug)]
pub struct ObjectHeader {
    type_tag: RuntimeTypeTag,
    strong_count: usize,
    weak_count: usize,
    layout: ObjectLayout,
    destroyed: bool,
}

impl View for ObjectHeader {
    type V = HeaderCounts;

    closed spec fn view(&self) -> HeaderCounts {
        HeaderCounts { strong: self.strong_count, weak: self.weak_count, destroyed: self.destroyed }
    }
}

impl ObjectHeader {
    #[verifier::type_invariant]
    spec fn consistent(self) -> bool {
        counts_consistent(self@)
    }

    /// The type tag of the object.
    pub closed spec fn spec_type_tag(&self) -> RuntimeTypeTag {
        self.type_tag
    }

    /// The layout of the payload.
    pub closed spec fn spec_layout(&self) -> ObjectLayout {
        self.layout
    }

    /// Creates the header of a newly allocated object: one strong reference
    /// and the implicit weak reference.
    pub fn new(type_tag: RuntimeTypeTag, layout: ObjectLayout) -> (r: Self)
        ensures
            r@ == (HeaderCounts { strong: 1, weak: 1, destroyed: false }),
            r.spec_type_tag() == type_tag,
            r.spec_layout() == layout,
    {
        ObjectHeader { type_tag, strong_count: 1, weak_count: 1, layout, destroyed: false }
    }

    /// Returns the type tag of the object.
    pub fn type_tag(&self) -> (r: RuntimeTypeTag)
        ensures
            r == self.spec_type_tag(),
    {
        self.type_tag
    }

    /// Returns the layout of the payload.
    pub fn layout(&self) -> (r: ObjectLayout)
        ensures
            r == self.spec_layout(),
    {
        self.layout
    }

    /// Returns the strong count.
    pub fn strong_count(&self) -> (r: usize)
        ensures
            r == self@.strong,
    {
        self.strong_count
    }

    /// Returns the weak count, the implicit weak reference included.
    pub fn weak_count(&self) -> (r: usize)
        ensures
            r == self@.weak,
    {
        self.weak_count
    }

    /// Returns the name of the counting strategy.
    pub fn counter_strategy(&self) -> (r: &'static str)
        ensures
            r == "non-atomic",
    {
        CounterStrategyKind::NonAtomic.as_str()
    }

    /// Returns whether the payload is still alive.
    pub fn is_alive(&self) -> (r: bool)
        ensures
            r == !self@.destroyed,
            r == (self@.strong > 0),
    {
        proof {
            use_type_invariant(self);
        }
        !self.destroyed
    }

    /// Takes one more strong reference, as cloning a strong handle does.
    ///
    /// A released object cannot be revived, and a full count is an error.
    pub fn try_clone_strong(&mut self) -> (r: Result<(), RuntimeError>)
        ensures
            old(self)@.destroyed ==> r == Err::<(), RuntimeError>(RuntimeError::UseAfterRelease),
            !old(self)@.destroyed && old(self)@.strong == usize::MAX ==> (r is Err && r->Err_0 is RefcountInvariant),
            !old(self)@.destroyed && old(self)@.strong < usize::MAX ==> r is Ok,
            r is Ok ==> final(self)@ == counts_after_clone(old(self)@),
            r is Err ==> final(self)@ == old(self)@,
            final(self).spec_type_tag() == old(self).spec_type_tag(),
            final(self).spec_layout() == old(self).spec_layout(),
    {
        proof {
            use_type_invariant(&*self);
        }
        if self.destroyed || self.strong_count == 0 {
            return Err(RuntimeError::UseAfterRelease);
        }
        let count = NonAtomicRefCount.increment(self.strong_count)?;
        self.strong_count = count;
        Ok(())
    }

    /// Takes one more weak reference, as downgrading a strong handle or
    /// cloning a weak handle does; a full count is an error.
    pub fn try_add_weak(&mut self) -> (r: Result<(), RuntimeError>)
        ensures
            old(self)@.weak == usize::MAX ==> (r is Err && r->Err_0 is RefcountInvariant),
            old(self)@.weak < usize::MAX ==> r is Ok,
            r is Ok ==> final(self)@ == counts_after_downgrade(old(self)@),
            r is Err ==> final(self)@ == old(self)@,
            final(self).spec_type_tag() == old(self).spec_type_tag(),
            final(self).spec_layout() == old(self).spec_layout(),
    {
        proof {
            use_type_invariant(&*self);
        }
        let count = NonAtomicRefCount.increment(self.weak_count)?;
        self.weak_count = count;
        Ok(())
    }

    /// Turns a weak reference into a new strong one; fails once the payload
    /// was released.
    pub fn upgrade(&mut self) -> (r: Result<(), RuntimeError>)
        ensures
            old(self)@.destroyed ==> r == Err::<(), RuntimeError>(RuntimeError::WeakUpgrade),
            !old(self)@.destroyed && old(self)@.strong == usize::MAX ==> (r is Err && r->Err_0 is RefcountInvariant),
            !old(self)@.destroyed && old(self)@.strong < usize::MAX ==> r is Ok,
            r is Ok ==> final(self)@ == counts_after_clone(old(self)@),
            r is Err ==> final(self)@ == old(self)@,
            final(self).spec_type_tag() == old(self).spec_type_tag(),
            final(self).spec_layout() == old(self).spec_layout(),
    {
        proof {
            use_type_invariant(&*self);
        }
        if self.destroyed || self.strong_count == 0 {
            return Err(RuntimeError::WeakUpgrade);
        }
        let count = NonAtomicRefCount.increment(self.strong_count)?;
        self.strong_count = count;
        Ok(())
    }

    /// Releases one strong reference.
    ///
    /// The last one releases the payload, once, together with the implicit
    /// weak reference, and asks for the header to be freed when no weak
    /// reference is left. Releasing with no strong reference left is an error.
    pub fn release_strong(&mut self) -> (r: Result<ReleaseAction, RuntimeError>)
        ensures
            old(self)@.strong == 0 ==> (r is Err && r->Err_0 is RefcountInvariant),
            old(self)@.strong >= 2 ==> r == Ok::<ReleaseAction, RuntimeError>(ReleaseAction::Retained),
            old(self)@.strong == 1 ==> r == Ok::<ReleaseAction, RuntimeError>(
                ReleaseAction::PayloadReleased { free_header: old(self)@.weak == 1 },
            ),
            r is Ok ==> final(self)@ == counts_after_release(old(self)@),
            r is Err ==> final(self)@ == old(self)@,
            final(self).spec_type_tag() == old(self).spec_type_tag(),
            final(self).spec_layout() == old(self).spec_layout(),
    {
        proof {
            use_type_invariant(&*self);
        }
        let next = NonAtomicRefCount.decrement(self.strong_count)?;
        if next != 0 {
            self.strong_count = next;
            return Ok(ReleaseAction::Retained);
        }
        let weak_next = NonAtomicRefCount.decrement(self.weak_count)?;
        *self = ObjectHeader {
            type_tag: self.type_tag,
            strong_count: 0,
            weak_count: weak_next,
            layout: self.layout,
            destroyed: true,
        };
        Ok(ReleaseAction::PayloadReleased { free_header: weak_next == 0 })
    }

    /// Releases one weak reference held by a weak handle and returns whether
    /// the header is to be freed.
    ///
    /// While the payload is alive the implicit weak reference is not released
    /// this way.
    pub fn release_weak(&mut self) -> (free_header: bool)
        requires
            old(self)@.weak >= 1,
            old(self)@.destroyed || old(self)@.weak >= 2,
        ensures
            final(self)@ == counts_after_weak_release(old(self)@),
            free_header == (final(self)@.weak == 0),
            free_header ==> final(self)@.destroyed,
            final(self).spec_type_tag() == old(self).spec_type_tag(),
            final(self).spec_layout() == old(self).spec_layout(),
    {
        proof {
            use_type_invariant(&*self);
        }
        let count = self.weak_count - 1;
        self.weak_count = count;
        count == 0
    }

    /// Checks that the payload is alive and of the expected type before it is
    /// read or written.
    pub fn check_access(&self, expected: RuntimeTypeTag) -> (r: Result<(), RuntimeError>)
        ensures
            self@.destroyed ==> r == Err::<(), RuntimeError>(RuntimeError::UseAfterRelease),
            !self@.destroyed && self.spec_type_tag() != expected ==> r == Err::<(), RuntimeError>(
                RuntimeError::TypeMismatch { expected: expected.name(), actual: self.spec_type_tag().name() },
            ),
            !self@.destroyed && self.spec_type_tag() == expected ==> r is Ok,
    {
        if self.destroyed {
            return Err(RuntimeError::UseAfterRelease);
        }
        if self.type_tag != expected {
            return Err(RuntimeError::TypeMismatch { expected: expected.as_str(), actual: self.type_tag.as_str() });
        }
        Ok(())
    }
}

/// Taking a strong reference and releasing it again restores the counts of a
/// live object.
pub proof fn lemma_clone_then_release(c: HeaderCounts)
    requires
        counts_consistent(c),
        !c.destroyed,
        c.strong < usize::MAX,
    ensures
        counts_after_release(counts_after_clone(c)) == c,
{
}

/// Taking a weak reference and releasing it again restores the counts.
pub proof fn lemma_downgrade_then_weak_release(c: HeaderCounts)
    requires
        c.weak < usize::MAX,
    ensures
        counts_after_weak_release(counts_after_downgrade(c)) == c,
{
}

/// Every counting step keeps the counts consistent: the payload is released
/// exactly when the last strong reference goes, and a live object keeps its
/// implicit weak reference.
pub proof fn lemma_steps_keep_counts_consistent(c: HeaderCounts)
    requires
        counts_consistent(c),
    ensures
        !c.destroyed && c.strong < usize::MAX ==> counts_consistent(counts_after_clone(c)),
        c.weak < usize::MAX ==> counts_consistent(counts_after_downgrade(c)),
        c.strong >= 1 ==> counts_consistent(counts_after_release(c)),
        c.weak >= 1 && (c.destroyed || c.weak >= 2) ==> counts_consistent(counts_after_weak_release(c)),
{
}

/// Once released, a payload stays released: no counting step brings a strong
/// reference back.
pub proof fn lemma_release_is_final(c: HeaderCounts)
    requires
        counts_consistent(c),
        c.destroyed,
    ensures
        counts_after_downgrade(c).destroyed,
        c.weak >= 1 ==> counts_after_weak_release(c).destroyed,
        counts_after_downgrade(c).strong == 0,
{
}

} // verus!
