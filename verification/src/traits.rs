//! Core traits that all CRDTs implement.
//!
//! [`Crdt`] defines the three operations every CRDT supports: `value`, `merge` and `compare`.
//! [`DeltaCrdt`] extends it with delta-state support, for replication that ships only the
//! changes since the last version seen.
//!
//! A replica is modelled by its view. Each implementation says what its operations do to that
//! model, and proves of it the laws that make replicas converge.
use vstd::prelude::*;

verus! {

/// A state-based conflict-free replicated data type.
///
/// Updates are specific to each type and not part of this trait. `Clone` is required because
/// `merge` consumes `other`: a caller that wants to keep a copy clones first.
pub trait Crdt: Clone + View {
    /// What a replica reads as.
    type Value;

    /// The types that the replica is built of behave: keys are ordered lawfully, and a clone of
    /// a stored value is that value. The operations promise their results where this holds.
    spec fn lawful() -> bool;

    /// The two models stand for one state: they differ at most in what means nothing, such as a
    /// count of zero or the order in which concurrent writes are kept.
    spec fn same(a: Self::V, b: Self::V) -> bool;

    /// The state that results from merging `b` into `a`.
    spec fn join(a: Self::V, b: Self::V) -> Self::V;

    /// Everything that `a` knows is part of `b`.
    spec fn below(a: Self::V, b: Self::V) -> bool;

    /// The invariant of the states that updates and merges lead to.
    spec fn valid(a: Self::V) -> bool;

    /// `a` and `b` can be replicas of one object: what carries the same stamp in both is the
    /// same write.
    spec fn agree(a: Self::V, b: Self::V) -> bool;

    /// Everything that `a` holds survives a merge with `b`.
    spec fn survives(a: Self::V, b: Self::V) -> bool;

    /// Merging the two only adds what one lacks of the other.
    spec fn adds_only(a: Self::V, b: Self::V) -> bool;

    /// It makes no difference which two of the three are merged first.
    spec fn regroupable(a: Self::V, b: Self::V, c: Self::V) -> bool;

    /// The value of the state fits in `Value`.
    spec fn readable(a: Self::V) -> bool;

    /// `value` is what the state reads as.
    spec fn reads(a: Self::V, value: Self::Value) -> bool;

    /// A copy of the replica.
    fn replica(&self) -> (copy: Self)
        ensures
            Self::lawful() ==> copy@ == self@,
    ;

    /// Reads the current value, as a copy that is independent of the replica.
    fn value(&self) -> (value: Self::Value)
        requires
            Self::readable(self@),
        ensures
            Self::lawful() ==> Self::reads(self@, value),
    ;

    /// Merges another replica into this one.
    fn merge(&mut self, other: Self)
        ensures
            Self::lawful() ==> final(self)@ == Self::join(old(self)@, other@),
    ;

    /// Whether `self` is part of `other`, so that merging `other` into `self` gives `other`.
    fn compare(&self, other: &Self) -> (included: bool)
        ensures
            Self::lawful() ==> included == Self::below(self@, other@),
    ;

    /// Merge order does not matter: merging `b` into `a` gives the state that merging `a` into
    /// `b` gives.
    proof fn merge_commutative(a: Self::V, b: Self::V)
        requires
            Self::agree(a, b),
        ensures
            Self::same(Self::join(a, b), Self::join(b, a)),
    ;

    /// Grouping does not matter: merging `b` and `c` first, or `a` and `b` first, gives the same
    /// state.
    proof fn merge_associative(a: Self::V, b: Self::V, c: Self::V)
        requires
            Self::regroupable(a, b, c),
        ensures
            Self::same(Self::join(Self::join(a, b), c), Self::join(a, Self::join(b, c))),
    ;

    /// Repetition does not matter: merging a replica into itself changes nothing.
    proof fn merge_idempotent(a: Self::V)
        requires
            Self::valid(a),
        ensures
            Self::same(Self::join(a, a), a),
    ;

    /// Merging keeps the invariant.
    proof fn merge_keeps_valid(a: Self::V, b: Self::V)
        requires
            Self::valid(a),
            Self::valid(b),
        ensures
            Self::valid(Self::join(a, b)),
    ;

    /// A merge knows everything that either side knew and that survives it.
    proof fn merge_includes(a: Self::V, b: Self::V)
        requires
            Self::survives(a, b),
        ensures
            Self::below(a, Self::join(a, b)),
            Self::below(a, Self::join(b, a)),
    ;

    /// A replica is part of itself.
    proof fn compare_reflexive(a: Self::V)
        ensures
            Self::below(a, a),
    ;

    /// What is part of a part is part of the whole.
    proof fn compare_transitive(a: Self::V, b: Self::V, c: Self::V)
        requires
            Self::below(a, b),
            Self::below(b, c),
        ensures
            Self::below(a, c),
    ;

    /// Where `compare` holds, merging `b` into `a` results in `b`.
    proof fn compare_means_included(a: Self::V, b: Self::V)
        requires
            Self::valid(b),
            Self::agree(a, b),
            Self::adds_only(a, b),
            Self::below(a, b),
        ensures
            Self::same(Self::join(a, b), b),
    ;
}

/// A [`Crdt`] that can be replicated by deltas.
///
/// Where [`Crdt::merge`] absorbs an entire replica, a sender can ship only the part of its state
/// that the receiver does not have yet, and the receiver applies it with `merge_delta`.
pub trait DeltaCrdt: Crdt {
    /// What a replica knows that a peer at some version does not.
    type Delta: Clone;

    /// A summary of what a replica knows.
    type Version;

    /// The model of a delta.
    type DeltaModel;

    /// The model of a version.
    type VersionModel;

    spec fn delta_model(delta: Self::Delta) -> Self::DeltaModel;

    spec fn version_model(version: Self::Version) -> Self::VersionModel;

    /// The version of a state.
    spec fn version_of(a: Self::V) -> Self::VersionModel;

    /// What a state holds beyond a version.
    spec fn delta_of(a: Self::V, since: Self::VersionModel) -> Self::DeltaModel;

    /// The state that results from applying a delta.
    spec fn absorb(a: Self::V, delta: Self::DeltaModel) -> Self::V;

    /// The delta holds nothing.
    spec fn vacuous(delta: Self::DeltaModel) -> bool;

    /// The version of the state tells a replica that has it from one that has nothing yet.
    spec fn is_versioned(a: Self::V) -> bool;

    /// Everything that was known at `other` is known at `current`.
    spec fn covers(current: Self::VersionModel, other: Self::VersionModel) -> bool;

    /// What the version `since` covers of `sender`, `receiver` has, so that the delta against
    /// that version carries all that `receiver` is missing.
    spec fn bridges(sender: Self::V, since: Self::VersionModel, receiver: Self::V) -> bool;

    /// The deltas `d` and `e` can come from replicas of one object.
    spec fn delta_agree(d: Self::DeltaModel, e: Self::DeltaModel) -> bool;

    /// What the delta holds is within what its clock says it holds.
    spec fn delta_valid(d: Self::DeltaModel) -> bool;

    /// A copy of a version.
    fn copy_version(version: &Self::Version) -> (copy: Self::Version)
        ensures
            Self::version_model(copy) == Self::version_model(*version),
    ;

    /// The current version, to be handed to a peer's `delta_since`.
    fn version(&self) -> (version: Self::Version)
        ensures
            Self::lawful() ==> Self::version_model(version) == Self::version_of(self@),
    ;

    /// What `self` holds beyond the version `since`.
    fn delta_since(&self, since: &Self::Version) -> (delta: Self::Delta)
        ensures
            Self::lawful() ==> Self::delta_model(delta) == Self::delta_of(
                self@,
                Self::version_model(*since),
            ),
    ;

    /// Applies a delta.
    fn merge_delta(&mut self, delta: Self::Delta)
        ensures
            Self::lawful() ==> final(self)@ == Self::absorb(
                old(self)@,
                Self::delta_model(delta),
            ),
    ;

    /// Whether the delta would not change any replica.
    fn is_empty_delta(delta: &Self::Delta) -> (empty: bool)
        ensures
            Self::lawful() ==> empty == Self::vacuous(Self::delta_model(*delta)),
    ;

    /// Whether a replica at `current` knows everything that a peer at `other` did. A receiver
    /// drops a delta whose baseline its own version does not include.
    fn version_includes(current: &Self::Version, other: &Self::Version) -> (included: bool)
        ensures
            Self::lawful() ==> included == Self::covers(
                Self::version_model(*current),
                Self::version_model(*other),
            ),
    ;

    /// Soundness: a receiver that applies a delta against its own version, or against an older
    /// one that its version includes, knows everything that the sender knew.
    proof fn delta_catches_up(sender: Self::V, since: Self::VersionModel, receiver: Self::V)
        requires
            Self::survives(sender, receiver),
            Self::covers(Self::version_of(receiver), since),
            Self::bridges(sender, since, receiver),
        ensures
            Self::below(sender, Self::absorb(receiver, Self::delta_of(sender, since))),
    ;

    /// Applying such a delta is what merging the whole sender is.
    proof fn delta_is_merge(sender: Self::V, since: Self::VersionModel, receiver: Self::V)
        requires
            Self::adds_only(sender, receiver),
            Self::covers(Self::version_of(receiver), since),
            Self::bridges(sender, since, receiver),
        ensures
            Self::same(
                Self::absorb(receiver, Self::delta_of(sender, since)),
                Self::join(receiver, sender),
            ),
    ;

    /// Two deltas can be applied in either order.
    proof fn delta_commutative(a: Self::V, d: Self::DeltaModel, e: Self::DeltaModel)
        requires
            Self::delta_agree(d, e),
        ensures
            Self::same(
                Self::absorb(Self::absorb(a, d), e),
                Self::absorb(Self::absorb(a, e), d),
            ),
    ;

    /// A delta can be applied twice.
    proof fn delta_idempotent(a: Self::V, d: Self::DeltaModel)
        ensures
            Self::same(Self::absorb(Self::absorb(a, d), d), Self::absorb(a, d)),
    ;

    /// Applying a delta keeps the invariant.
    proof fn delta_keeps_valid(a: Self::V, d: Self::DeltaModel)
        requires
            Self::valid(a),
            Self::delta_valid(d),
        ensures
            Self::valid(Self::absorb(a, d)),
    ;

    /// What a replica hands out is a valid delta, whatever version it is asked for.
    proof fn delta_of_is_valid(a: Self::V, since: Self::VersionModel)
        requires
            Self::valid(a),
        ensures
            Self::delta_valid(Self::delta_of(a, since)),
    ;

    /// An empty delta changes no replica.
    proof fn empty_delta_changes_nothing(a: Self::V, d: Self::DeltaModel)
        requires
            Self::valid(a),
            Self::vacuous(d),
        ensures
            Self::same(Self::absorb(a, d), a),
    ;

    /// A replica has nothing to send to a peer at its own version.
    proof fn delta_since_own_version_is_empty(a: Self::V)
        requires
            Self::valid(a),
            Self::is_versioned(a),
        ensures
            Self::vacuous(Self::delta_of(a, Self::version_of(a))),
    ;

    /// A version includes itself.
    proof fn version_includes_itself(v: Self::VersionModel)
        ensures
            Self::covers(v, v),
    ;

    /// Inclusion of versions is transitive.
    proof fn version_includes_transitive(
        u: Self::VersionModel,
        v: Self::VersionModel,
        w: Self::VersionModel,
    )
        requires
            Self::covers(u, v),
            Self::covers(v, w),
        ensures
            Self::covers(u, w),
    ;

    /// Merging never takes a version back: what either side's version included is included
    /// after the merge.
    proof fn merge_advances_version(a: Self::V, b: Self::V)
        ensures
            Self::covers(Self::version_of(Self::join(a, b)), Self::version_of(a)),
            Self::covers(Self::version_of(Self::join(a, b)), Self::version_of(b)),
    ;
}

} // verus!
