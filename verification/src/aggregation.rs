//! Masked-aggregation engine.
//!
//! Maintains a running componentwise sum (in the integers) of all accepted
//! masked objects, plus a contributor count. Validation precedes every
//! mutation, so a rejected object leaves the aggregation untouched.

use crate::bignum::{canonical, le_val, num_add};
use crate::mask::{
    elements_valid, MaskConfig, MaskMany, MaskObject, MaskObjectV, MaskOne,
};
use vstd::prelude::*;

verus! {

/// Why a masked object cannot be aggregated.
#[derive(Debug, Clone, Copy, PartialEq, Eq)]
pub enum AggregationError {
    /// The object's masking configuration differs from the aggregation's.
    ConfigMismatch,
    /// The object's vector length differs from the aggregation's size.
    SizeMismatch,
    /// The object fails its own validity check.
    InvalidObject,
    /// The contributor count cannot grow any further.
    TooManyContributions,
}

/// The mathematical content of an aggregation: the modulus limbs, the vector
/// length, the running sums as numbers, and the contributor count.
pub struct AggregationV {
    pub order: Seq<u8>,
    pub size: nat,
    pub partial: Seq<nat>,
    pub scalar: nat,
    pub count: nat,
}

/// A masked-object view that conforms to its own configurations.
pub open spec fn mask_object_v_valid(o: MaskObjectV) -> bool {
    &&& canonical(o.vector.order)
    &&& o.vector.order.len() >= 1
    &&& elements_valid(o.vector.data, o.vector.order)
    &&& canonical(o.scalar.order)
    &&& o.scalar.order.len() >= 1
    &&& canonical(o.scalar.data)
    &&& le_val(o.scalar.data) < le_val(o.scalar.order)
}

/// The exact outcome of validating a masked object against an aggregation.
pub open spec fn validate_spec(a: AggregationV, o: MaskObjectV) -> Result<(), AggregationError> {
    if o.vector.order != a.order || o.scalar.order != a.order {
        Err(AggregationError::ConfigMismatch)
    } else if o.vector.data.len() != a.size {
        Err(AggregationError::SizeMismatch)
    } else if !mask_object_v_valid(o) {
        Err(AggregationError::InvalidObject)
    } else if a.count >= usize::MAX as nat {
        Err(AggregationError::TooManyContributions)
    } else {
        Ok(())
    }
}

/// Whether a masked object would be accepted by the aggregation.
pub open spec fn can_aggregate(a: AggregationV, o: MaskObjectV) -> bool {
    validate_spec(a, o) is Ok
}

/// The aggregation state after one accepted contribution: componentwise sums,
/// scalar sum, and count all advance.
pub open spec fn agg_step(a: AggregationV, o: MaskObjectV) -> AggregationV {
    AggregationV {
        order: a.order,
        size: a.size,
        partial: Seq::new(a.partial.len(), |i: int| a.partial[i] + le_val(o.vector.data[i])),
        scalar: a.scalar + le_val(o.scalar.data),
        count: a.count + 1,
    }
}

/// Aggregation is commutative: accepting two contributions in either order
/// leaves the aggregation in the same state, so arrival order does not affect
/// the final aggregate.
pub proof fn lemma_aggregate_commutes(a: AggregationV, o1: MaskObjectV, o2: MaskObjectV)
    requires
        can_aggregate(a, o1),
        can_aggregate(a, o2),
        a.partial.len() == a.size,
    ensures
        agg_step(agg_step(a, o1), o2) == agg_step(agg_step(a, o2), o1),
{
    assert(agg_step(agg_step(a, o1), o2).partial =~= agg_step(agg_step(a, o2), o1).partial);
}

/// A running componentwise sum of masked objects.
#[derive(Debug, Clone, PartialEq, Eq)]
pub struct Aggregation {
    /// The masking configuration every contribution must share.
    pub config: MaskConfig,
    /// The expected vector length of every contribution.
    pub size: usize,
    /// The running componentwise sums, canonical limbs each.
    pub partial: Vec<Vec<u8>>,
    /// The running scalar sum, canonical limbs.
    pub partial_scalar: Vec<u8>,
    /// How many contributions have been accepted.
    pub count: usize,
}

impl View for Aggregation {
    type V = AggregationV;

    open spec fn view(&self) -> AggregationV {
        AggregationV {
            order: self.config.order@,
            size: self.size as nat,
            partial: Seq::new(self.partial@.len(), |i: int| le_val(self.partial@[i]@)),
            scalar: le_val(self.partial_scalar@),
            count: self.count as nat,
        }
    }
}

impl Aggregation {
    /// The running sums are canonical numbers and the shape matches the size.
    pub open spec fn wf(&self) -> bool {
        &&& self.config.wf()
        &&& self.partial@.len() == self.size
        &&& forall|i: int| 0 <= i < self.partial@.len() ==> canonical(#[trigger] self.partial@[i]@)
        &&& canonical(self.partial_scalar@)
    }

    /// Creates an aggregation initialized to the zero vector of length `size`
    /// and a zero scalar.
    pub fn new(config: MaskConfig, size: usize) -> (r: Self)
        requires
            config.wf(),
        ensures
            r.wf(),
            r.config.order@ == config.order@,
            r.size == size,
            r@ == (AggregationV {
                order: config.order@,
                size: size as nat,
                partial: Seq::new(size as nat, |i: int| 0nat),
                scalar: 0,
                count: 0,
            }),
    {
        let mut partial: Vec<Vec<u8>> = Vec::new();
        let mut i: usize = 0;
        while i < size
            invariant
                i <= size,
                partial@.len() == i,
                forall|j: int| 0 <= j < i ==> (#[trigger] partial@[j]@).len() == 0,
            decreases size - i,
        {
            partial.push(Vec::new());
            i += 1;
        }
        let r = Aggregation { config, size, partial, partial_scalar: Vec::new(), count: 0 };
        proof {
            assert(r@.partial =~= Seq::new(size as nat, |i: int| 0nat));
        }
        r
    }

    /// The vector length of the aggregation (the mask length).
    pub fn len(&self) -> (r: usize)
        ensures
            r == self.size,
    {
        self.size
    }

    /// How many contributions have been accepted.
    pub fn count(&self) -> (r: usize)
        ensures
            r as nat == self@.count,
    {
        self.count
    }

    /// Checks whether the object can be aggregated, and says exactly why not.
    pub fn validate_aggregation(&self, obj: &MaskObject) -> (r: Result<(), AggregationError>)
        ensures
            r == validate_spec(self@, obj@),
            r is Ok <==> can_aggregate(self@, obj@),
    {
        if !(self.config.same_as(&obj.vector.config) && self.config.same_as(&obj.scalar.config)) {
            return Err(AggregationError::ConfigMismatch);
        }
        if obj.vector.data.len() != self.size {
            return Err(AggregationError::SizeMismatch);
        }
        if !obj.is_valid() {
            return Err(AggregationError::InvalidObject);
        }
        if self.count >= usize::MAX {
            return Err(AggregationError::TooManyContributions);
        }
        Ok(())
    }

    /// Adds a validated object componentwise and counts its contributor.
    pub fn aggregate(&mut self, obj: MaskObject)
        requires
            old(self).wf(),
            can_aggregate(old(self)@, obj@),
        ensures
            final(self).wf(),
            final(self)@ == agg_step(old(self)@, obj@),
            final(self).config == old(self).config,
            final(self).size == old(self).size,
    {
        let n = self.partial.len();
        proof {
            assert(obj@.vector.data.len() == n);
        }
        let mut i: usize = 0;
        while i < n
            invariant
                i <= n,
                n == self.partial@.len() == old(self).partial@.len(),
                obj@.vector.data.len() == n,
                self.config == old(self).config,
                self.size == old(self).size,
                self.partial_scalar == old(self).partial_scalar,
                self.count == old(self).count,
                forall|j: int|
                    i <= j < n ==> #[trigger] self.partial@[j] == old(self).partial@[j],
                forall|j: int|
                    0 <= j < i ==> canonical(#[trigger] self.partial@[j]@) && le_val(
                        self.partial@[j]@,
                    ) == le_val(old(self).partial@[j]@) + le_val(obj@.vector.data[j]),
                forall|j: int|
                    0 <= j < n ==> canonical(#[trigger] self.partial@[j]@),
            decreases n - i,
        {
            proof {
                assert(obj@.vector.data[i as int] == obj.vector.data@[i as int]@);
            }
            let sum = num_add(&self.partial[i], &obj.vector.data[i]);
            self.partial[i] = sum;
            i += 1;
        }
        let s2 = num_add(&self.partial_scalar, &obj.scalar.data);
        self.partial_scalar = s2;
        self.count = self.count + 1;
        proof {
            assert(self@.partial =~= agg_step(old(self)@, obj@).partial);
        }
    }

    /// Exposes the running sums as a mask object; consumed by the unmasking
    /// step. The sums may exceed the modulus until they are reduced there.
    pub fn into_mask_object(self) -> (r: MaskObject)
        requires
            self.wf(),
        ensures
            r.vector.config.order@ == self@.order,
            r.scalar.config.order@ == self@.order,
            r.vector@.data.len() == self@.size,
            forall|i: int|
                0 <= i < self@.size ==> le_val(#[trigger] r.vector@.data[i]) == self@.partial[i]
                    && canonical(r.vector@.data[i]),
            le_val(r.scalar@.data) == self@.scalar,
            canonical(r.scalar@.data),
    {
        let config2 = self.config.duplicate();
        let Aggregation { config, size, partial, partial_scalar, count } = self;
        let r = MaskObject {
            vector: MaskMany { data: partial, config },
            scalar: MaskOne { data: partial_scalar, config: config2 },
        };
        proof {
            assert forall|i: int| 0 <= i < self@.size implies le_val(
                #[trigger] r.vector@.data[i],
            ) == self@.partial[i] && canonical(r.vector@.data[i]) by {
                assert(r.vector@.data[i] == self.partial@[i]@);
            }
        }
        r
    }
}

} // verus!
