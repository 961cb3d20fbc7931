//! Masking configuration and mask objects.
//!
//! A mask object is either a vector of bounded numbers (a mask or a masked
//! model) or a single bounded number (a mask or a masked scalar). Every
//! element must lie below the modulus of the masking configuration.

use crate::bignum::{bytes_eq, canonical, copy_bytes, is_canonical, le_val, num_from_u64, num_lt};
use vstd::prelude::*;

verus! {

/// Errors related to invalid mask objects.
#[derive(Debug, Clone, Copy, PartialEq, Eq)]
pub struct InvalidMaskObjectError;

/// The masking configuration: the modulus (`order`) that bounds every mask
/// element, held as canonical little-endian limbs. Its limb count is also the
/// fixed width in which elements travel on the wire.
#[derive(Debug, Clone, PartialEq, Eq, Hash)]
pub struct MaskConfig {
    pub order: Vec<u8>,
}

impl MaskConfig {
    /// A configuration is well formed when its modulus is canonical and positive.
    pub open spec fn wf(&self) -> bool {
        canonical(self.order@) && self.order@.len() >= 1
    }

    /// The modulus as a number.
    pub open spec fn order_val(&self) -> nat {
        le_val(self.order@)
    }

    /// Creates a configuration whose modulus is the given machine word.
    pub fn from_u64(order: u64) -> (r: Self)
        requires
            order >= 1,
        ensures
            r.wf(),
            r.order_val() == order as nat,
    {
        let limbs = num_from_u64(order);
        proof {
            if limbs@.len() == 0 {
                assert(le_val(limbs@) == 0);
            }
        }
        MaskConfig { order: limbs }
    }

    /// The number of bytes each element occupies on the wire.
    pub fn bytes_per_number(&self) -> (r: usize)
        ensures
            r == self.order@.len(),
    {
        self.order.len()
    }

    /// Copies the configuration.
    pub fn duplicate(&self) -> (r: Self)
        ensures
            r.order@ == self.order@,
    {
        MaskConfig { order: copy_bytes(&self.order) }
    }

    /// Compares two configurations.
    pub fn same_as(&self, other: &Self) -> (r: bool)
        ensures
            r == (self.order@ == other.order@),
    {
        bytes_eq(&self.order, &other.order)
    }
}

/// A mask object which represents either a mask or a masked model.
#[derive(Debug, Clone, PartialEq, Eq, Hash)]
pub struct MaskMany {
    pub data: Vec<Vec<u8>>,
    pub config: MaskConfig,
}

/// The mathematical content of a `MaskMany`: element limbs and the modulus limbs.
pub struct MaskManyV {
    pub data: Seq<Seq<u8>>,
    pub order: Seq<u8>,
}

/// The mathematical content of a `MaskOne`.
pub struct MaskOneV {
    pub data: Seq<u8>,
    pub order: Seq<u8>,
}

/// The mathematical content of a `MaskObject`.
pub struct MaskObjectV {
    pub vector: MaskManyV,
    pub scalar: MaskOneV,
}

impl View for MaskMany {
    type V = MaskManyV;

    open spec fn view(&self) -> MaskManyV {
        MaskManyV { data: self.data.deep_view(), order: self.config.order@ }
    }
}

/// Every element is a canonical number below the modulus.
pub open spec fn elements_valid(data: Seq<Seq<u8>>, order: Seq<u8>) -> bool {
    forall|i: int|
        0 <= i < data.len() ==> canonical(#[trigger] data[i]) && le_val(data[i]) < le_val(order)
}

impl MaskMany {
    /// The elements as limb sequences.
    pub open spec fn data_view(&self) -> Seq<Seq<u8>> {
        self.data.deep_view()
    }

    /// The object conforms to its own configuration.
    pub open spec fn valid(&self) -> bool {
        self.config.wf() && elements_valid(self.data_view(), self.config.order@)
    }

    /// Creates a new mask object from the given masking configuration and the
    /// elements of the mask or masked model.
    pub fn new(config: MaskConfig, data: Vec<Vec<u8>>) -> (r: Self)
        ensures
            r.config == config,
            r.data == data,
    {
        Self { data, config }
    }

    /// Creates a new mask object, failing when the elements do not conform to
    /// the given masking configuration.
    pub fn new_checked(config: MaskConfig, data: Vec<Vec<u8>>) -> (r: Result<
        Self,
        InvalidMaskObjectError,
    >)
        ensures
            match r {
                Ok(m) => m.config == config && m.data == data && m.valid(),
                Err(_) => !(Self { data, config }).valid(),
            },
    {
        let obj = Self::new(config, data);
        if obj.is_valid() {
            Ok(obj)
        } else {
            Err(InvalidMaskObjectError)
        }
    }

    /// Creates a mask object with no elements yet, reserving room for `size`.
    pub fn empty(config: MaskConfig, size: usize) -> (r: Self)
        ensures
            r.config == config,
            r.data_view() =~= Seq::<Seq<u8>>::empty(),
    {
        Self { data: Vec::with_capacity(size), config }
    }

    /// Checks whether the elements conform to the masking configuration.
    pub fn is_valid(&self) -> (r: bool)
        ensures
            r == self.valid(),
    {
        if !(is_canonical(&self.config.order) && self.config.order.len() >= 1) {
            return false;
        }
        let n = self.data.len();
        let mut i: usize = 0;
        while i < n
            invariant
                i <= n,
                n == self.data_view().len(),
                self.config.wf(),
                forall|j: int|
                    0 <= j < i ==> canonical(#[trigger] self.data_view()[j]) && le_val(
                        self.data_view()[j],
                    ) < le_val(self.config.order@),
            decreases n - i,
        {
            proof {
                assert(self.data_view()[i as int] == self.data@[i as int]@);
            }
            if !is_canonical(&self.data[i]) {
                return false;
            }
            if !num_lt(&self.data[i], &self.config.order) {
                return false;
            }
            i += 1;
        }
        true
    }
}

/// A mask object which represents either a mask or a masked scalar.
#[derive(Debug, Clone, PartialEq, Eq, Hash)]
pub struct MaskOne {
    pub data: Vec<u8>,
    pub config: MaskConfig,
}

impl View for MaskOne {
    type V = MaskOneV;

    open spec fn view(&self) -> MaskOneV {
        MaskOneV { data: self.data@, order: self.config.order@ }
    }
}

impl MaskOne {
    /// The scalar conforms to its own configuration.
    pub open spec fn valid(&self) -> bool {
        self.config.wf() && canonical(self.data@) && le_val(self.data@) < le_val(
            self.config.order@,
        )
    }

    /// Creates a new mask object from the given masking configuration and the
    /// mask or masked scalar.
    pub fn new(config: MaskConfig, data: Vec<u8>) -> (r: Self)
        ensures
            r.config == config,
            r.data == data,
    {
        Self { data, config }
    }

    /// Creates a new mask object, failing when the scalar does not conform to
    /// the given masking configuration.
    pub fn new_checked(config: MaskConfig, data: Vec<u8>) -> (r: Result<
        Self,
        InvalidMaskObjectError,
    >)
        ensures
            match r {
                Ok(m) => m.config == config && m.data == data && m.valid(),
                Err(_) => !(Self { data, config }).valid(),
            },
    {
        let obj = Self::new(config, data);
        if obj.is_valid() {
            Ok(obj)
        } else {
            Err(InvalidMaskObjectError)
        }
    }

    /// Creates a placeholder scalar holding one, the neutral scale factor.
    pub fn empty(config: MaskConfig) -> (r: Self)
        ensures
            r.config == config,
            le_val(r.data@) == 1,
            canonical(r.data@),
    {
        Self { data: num_from_u64(1), config }
    }

    /// Checks whether the scalar conforms to the masking configuration.
    pub fn is_valid(&self) -> (r: bool)
        ensures
            r == self.valid(),
    {
        if !(is_canonical(&self.config.order) && self.config.order.len() >= 1) {
            return false;
        }
        if !is_canonical(&self.data) {
            return false;
        }
        num_lt(&self.data, &self.config.order)
    }
}

/// A mask object wrapper around a `MaskMany`, `MaskOne` pair: the masked model
/// and its masked scale factor.
#[derive(Debug, Clone, PartialEq, Eq, Hash)]
pub struct MaskObject {
    pub vector: MaskMany,
    pub scalar: MaskOne,
}

impl View for MaskObject {
    type V = MaskObjectV;

    open spec fn view(&self) -> MaskObjectV {
        MaskObjectV { vector: self.vector@, scalar: self.scalar@ }
    }
}

impl MaskObject {
    /// Both halves conform to their configurations.
    pub open spec fn valid(&self) -> bool {
        self.vector.valid() && self.scalar.valid()
    }

    /// Creates a new mask object from its two halves.
    pub fn new(vector: MaskMany, scalar: MaskOne) -> (r: Self)
        ensures
            r.vector == vector,
            r.scalar == scalar,
    {
        Self { vector, scalar }
    }

    /// Creates a new mask object from raw parts without validating them.
    pub fn new_unchecked(
        config_v: MaskConfig,
        data_v: Vec<Vec<u8>>,
        config_s: MaskConfig,
        data_s: Vec<u8>,
    ) -> (r: Self)
        ensures
            r.vector.config == config_v,
            r.vector.data == data_v,
            r.scalar.config == config_s,
            r.scalar.data == data_s,
    {
        Self { vector: MaskMany::new(config_v, data_v), scalar: MaskOne::new(config_s, data_s) }
    }

    /// Creates a new mask object from raw parts, validating both halves.
    pub fn new_checked(
        config_v: MaskConfig,
        data_v: Vec<Vec<u8>>,
        config_s: MaskConfig,
        data_s: Vec<u8>,
    ) -> (r: Result<Self, InvalidMaskObjectError>)
        ensures
            match r {
                Ok(m) => m.vector.config == config_v && m.vector.data == data_v && m.scalar.config
                    == config_s && m.scalar.data == data_s && m.valid(),
                Err(_) => !(MaskMany { data: data_v, config: config_v }).valid() || !(MaskOne {
                    data: data_s,
                    config: config_s,
                }).valid(),
            },
    {
        let vector = match MaskMany::new_checked(config_v, data_v) {
            Ok(v) => v,
            Err(e) => {
                return Err(e);
            },
        };
        let scalar = match MaskOne::new_checked(config_s, data_s) {
            Ok(s) => s,
            Err(e) => {
                return Err(e);
            },
        };
        Ok(Self { vector, scalar })
    }

    /// Creates a placeholder object: no vector elements, scalar one.
    pub fn empty(config_many: MaskConfig, config_one: MaskConfig, size: usize) -> (r: Self)
        ensures
            r.vector.config == config_many,
            r.vector.data_view() =~= Seq::<Seq<u8>>::empty(),
            r.scalar.config == config_one,
            le_val(r.scalar.data@) == 1,
    {
        Self { vector: MaskMany::empty(config_many, size), scalar: MaskOne::empty(config_one) }
    }

    /// Checks whether both halves conform to their configurations.
    pub fn is_valid(&self) -> (r: bool)
        ensures
            r == self.valid(),
    {
        self.vector.is_valid() && self.scalar.is_valid()
    }
}

} // verus!
