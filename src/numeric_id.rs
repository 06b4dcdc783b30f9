//! The packed 64-bit identifier of a GRIB parameter.
//!
//! The seven identifying fields are laid out in one `u64`, byte 0 being the
//! right-most byte:
//!
//! | Byte  | Field                | Type |
//! |:-----:|:--------------------:|:----:|
//! | 7     | product_discipline   | u8   |
//! | 6     | parameter_category   | u8   |
//! | 5     | parameter_number     | u8   |
//! | 4     | master_table_version | u8   |
//! | 3 & 2 | originating_center   | u16  |
//! | 1     | subcenter            | u8   |
//! | 0     | local_table_version  | u8   |
//!
//! Because the most significant bytes hold the discipline, then the category, then the
//! parameter number, the natural order of the packed integer groups identifiers by
//! discipline, then category, then parameter number.
use vstd::prelude::*;

verus! {

const N_BITS_PER_BYTE: u64 = 8;

/// The value that GRIB uses for a missing one-byte field.
pub const MISSING_U8: u8 = 0xFF;

/// The value that GRIB uses for a missing two-byte field.
pub const MISSING_U16: u16 = 0xFFFF;

/// The packed layout of the seven fields.
pub open spec fn pack_fields(
    product_discipline: u8,
    parameter_category: u8,
    parameter_number: u8,
    master_table_version: u8,
    originating_center: u16,
    subcenter: u8,
    local_table_version: u8,
) -> u64 {
    ((product_discipline as u64) << 56u64) | ((parameter_category as u64) << 48u64) | ((
    parameter_number as u64) << 40u64) | ((master_table_version as u64) << 32u64) | ((
    originating_center as u64) << 16u64) | ((subcenter as u64) << 8u64) | (
    local_table_version as u64)
}

/// Byte `n` of `v`, counting from the right-most byte (byte 0).
pub open spec fn byte_of(v: u64, n: u64) -> u8 {
    ((v >> (8 * n) as u64) & 0xFFu64) as u8
}

/// Stores the unique numerical identifier of a GRIB parameter as a single `u64`.
///
/// Build one with [`NumericIdBuilder`] or [`NumericId::new`].
#[derive(PartialEq, Eq, Structural, Clone, Copy, Debug, PartialOrd, Ord, Hash)]
pub struct NumericId(u64);

impl NumericId {
    const PRODUCT_DISCIPLINE_BYTE: u64 = 7;

    const PARAMETER_CATEGORY_BYTE: u64 = 6;

    const PARAMETER_NUMBER_BYTE: u64 = 5;

    const MASTER_TABLE_VERSION_BYTE: u64 = 4;

    const ORIGINATING_CENTER_LEFT_BYTE: u64 = 3;

    const ORIGINATING_CENTER_RIGHT_BYTE: u64 = 2;

    const SUBCENTER_BYTE: u64 = 1;

    const LOCAL_TABLE_VERSION_BYTE: u64 = 0;

    /// The packed integer.
    pub closed spec fn spec_packed(self) -> u64 {
        self.0
    }

    pub open spec fn spec_product_discipline(self) -> u8 {
        byte_of(self.spec_packed(), 7)
    }

    pub open spec fn spec_parameter_category(self) -> u8 {
        byte_of(self.spec_packed(), 6)
    }

    pub open spec fn spec_parameter_number(self) -> u8 {
        byte_of(self.spec_packed(), 5)
    }

    pub open spec fn spec_master_table_version(self) -> u8 {
        byte_of(self.spec_packed(), 4)
    }

    pub open spec fn spec_originating_center(self) -> u16 {
        ((byte_of(self.spec_packed(), 3) as u16) << 8u16) | (byte_of(self.spec_packed(), 2) as u16)
    }

    pub open spec fn spec_subcenter(self) -> u8 {
        byte_of(self.spec_packed(), 1)
    }

    pub open spec fn spec_local_table_version(self) -> u8 {
        byte_of(self.spec_packed(), 0)
    }

    /// Create a new `NumericId` from its seven fields.
    ///
    /// `originating_center`, `subcenter` and `local_table_version` are `u16::MAX`, `u8::MAX`
    /// and `u8::MAX` for parameters of the master table: GRIB uses these values for a
    /// missing field.
    pub fn new(
        product_discipline: u8,
        parameter_category: u8,
        parameter_number: u8,
        master_table_version: u8,
        originating_center: u16,
        subcenter: u8,
        local_table_version: u8,
    ) -> (r: Self)
        ensures
            r.spec_packed() == pack_fields(
                product_discipline,
                parameter_category,
                parameter_number,
                master_table_version,
                originating_center,
                subcenter,
                local_table_version,
            ),
            r.spec_product_discipline() == product_discipline,
            r.spec_parameter_category() == parameter_category,
            r.spec_parameter_number() == parameter_number,
            r.spec_master_table_version() == master_table_version,
            r.spec_originating_center() == originating_center,
            r.spec_subcenter() == subcenter,
            r.spec_local_table_version() == local_table_version,
    {
        let numeric_id = shift_left_by_n_bytes(
            product_discipline as u64,
            Self::PRODUCT_DISCIPLINE_BYTE,
        ) | shift_left_by_n_bytes(parameter_category as u64, Self::PARAMETER_CATEGORY_BYTE)
            | shift_left_by_n_bytes(parameter_number as u64, Self::PARAMETER_NUMBER_BYTE)
            | shift_left_by_n_bytes(master_table_version as u64, Self::MASTER_TABLE_VERSION_BYTE)
            | shift_left_by_n_bytes(
            originating_center as u64,
            Self::ORIGINATING_CENTER_RIGHT_BYTE,
        ) | shift_left_by_n_bytes(subcenter as u64, Self::SUBCENTER_BYTE)
            | (local_table_version as u64);
        let r = NumericId(numeric_id);
        proof {
            lemma_fields_of_packed(
                product_discipline,
                parameter_category,
                parameter_number,
                master_table_version,
                originating_center,
                subcenter,
                local_table_version,
            );
        }
        r
    }

    /// The identifier whose packed integer is `packed`.
    pub(crate) fn from_packed(packed: u64) -> (r: Self)
        ensures
            r.spec_packed() == packed,
    {
        NumericId(packed)
    }

    /// The packed integer.
    pub fn as_u64(&self) -> (r: u64)
        ensures
            r == self.spec_packed(),
    {
        self.0
    }

    pub fn product_discipline(&self) -> (r: u8)
        ensures
            r == self.spec_product_discipline(),
    {
        self.extract_nth_byte(Self::PRODUCT_DISCIPLINE_BYTE)
    }

    pub fn parameter_category(&self) -> (r: u8)
        ensures
            r == self.spec_parameter_category(),
    {
        self.extract_nth_byte(Self::PARAMETER_CATEGORY_BYTE)
    }

    pub fn parameter_number(&self) -> (r: u8)
        ensures
            r == self.spec_parameter_number(),
    {
        self.extract_nth_byte(Self::PARAMETER_NUMBER_BYTE)
    }

    pub fn master_table_version(&self) -> (r: u8)
        ensures
            r == self.spec_master_table_version(),
    {
        self.extract_nth_byte(Self::MASTER_TABLE_VERSION_BYTE)
    }

    pub fn originating_center(&self) -> (r: u16)
        ensures
            r == self.spec_originating_center(),
    {
        let left = self.extract_nth_byte(Self::ORIGINATING_CENTER_LEFT_BYTE) as u16;
        let right = self.extract_nth_byte(Self::ORIGINATING_CENTER_RIGHT_BYTE) as u16;
        (left << 8u16) | right
    }

    pub fn subcenter(&self) -> (r: u8)
        ensures
            r == self.spec_subcenter(),
    {
        self.extract_nth_byte(Self::SUBCENTER_BYTE)
    }

    pub fn local_table_version(&self) -> (r: u8)
        ensures
            r == self.spec_local_table_version(),
    {
        self.extract_nth_byte(Self::LOCAL_TABLE_VERSION_BYTE)
    }

    /// Byte `nth_byte` of the packed integer, counting from the right: byte 0 is the
    /// right-most byte and byte 7 the left-most.
    pub fn extract_nth_byte(&self, nth_byte: u64) -> (r: u8)
        requires
            nth_byte < 8,
        ensures
            r == byte_of(self.spec_packed(), nth_byte),
    {
        let n_bits_to_shift = N_BITS_PER_BYTE * nth_byte;
        let bit_mask = 0xFFu64 << n_bits_to_shift;
        let masked_and_shifted = (self.0 & bit_mask) >> n_bits_to_shift;
        let v = self.0;
        proof {
            assert(((v & (0xFFu64 << n_bits_to_shift)) >> n_bits_to_shift) == ((v
                >> n_bits_to_shift) & 0xFFu64) && ((v >> n_bits_to_shift) & 0xFFu64) <= 0xFF)
                by (bit_vector)
                requires
                    n_bits_to_shift < 64,
            ;
        }
        masked_and_shifted as u8
    }
}

/// The only public way to create a [`NumericId`] field by field.
///
/// The master table version, originating center, subcenter and local table version start
/// out as missing (all ones) and may each be set before [`NumericIdBuilder::build`].
#[derive(PartialEq, Eq, Structural, Clone, Copy, Debug)]
pub struct NumericIdBuilder {
    product_discipline: u8,
    parameter_category: u8,
    parameter_number: u8,
    master_table_version: u8,
    originating_center: u16,
    subcenter: u8,
    local_table_version: u8,
}

/// The seven fields of an identifier, in the order of the packed layout.
pub type NumericIdFields = (u8, u8, u8, u8, u16, u8, u8);

/// The packed integer of a field tuple.
pub open spec fn pack_tuple(f: NumericIdFields) -> u64 {
    pack_fields(f.0, f.1, f.2, f.3, f.4, f.5, f.6)
}

/// The seven fields read back from an identifier.
pub open spec fn fields_of(id: NumericId) -> NumericIdFields {
    (
        id.spec_product_discipline(),
        id.spec_parameter_category(),
        id.spec_parameter_number(),
        id.spec_master_table_version(),
        id.spec_originating_center(),
        id.spec_subcenter(),
        id.spec_local_table_version(),
    )
}

impl View for NumericIdBuilder {
    type V = NumericIdFields;

    closed spec fn view(&self) -> NumericIdFields {
        (
            self.product_discipline,
            self.parameter_category,
            self.parameter_number,
            self.master_table_version,
            self.originating_center,
            self.subcenter,
            self.local_table_version,
        )
    }
}

impl NumericIdBuilder {
    /// A builder with the given discipline, category and parameter number, and every other
    /// field missing.
    pub fn new(product_discipline: u8, parameter_category: u8, parameter_number: u8) -> (r: Self)
        ensures
            r@ == (
                product_discipline,
                parameter_category,
                parameter_number,
                MISSING_U8,
                MISSING_U16,
                MISSING_U8,
                MISSING_U8,
            ),
    {
        Self {
            product_discipline,
            parameter_category,
            parameter_number,
            master_table_version: MISSING_U8,
            originating_center: MISSING_U16,
            subcenter: MISSING_U8,
            local_table_version: MISSING_U8,
        }
    }

    pub fn set_master_table_version(&mut self, master_table_version: u8)
        ensures
            final(self)@ == (
                old(self)@.0,
                old(self)@.1,
                old(self)@.2,
                master_table_version,
                old(self)@.4,
                old(self)@.5,
                old(self)@.6,
            ),
    {
        self.master_table_version = master_table_version;
    }

    pub fn set_originating_center(&mut self, originating_center: u16)
        ensures
            final(self)@ == (
                old(self)@.0,
                old(self)@.1,
                old(self)@.2,
                old(self)@.3,
                originating_center,
                old(self)@.5,
                old(self)@.6,
            ),
    {
        self.originating_center = originating_center;
    }

    pub fn set_subcenter(&mut self, subcenter: u8)
        ensures
            final(self)@ == (
                old(self)@.0,
                old(self)@.1,
                old(self)@.2,
                old(self)@.3,
                old(self)@.4,
                subcenter,
                old(self)@.6,
            ),
    {
        self.subcenter = subcenter;
    }

    pub fn set_local_table_version(&mut self, local_table_version: u8)
        ensures
            final(self)@ == (
                old(self)@.0,
                old(self)@.1,
                old(self)@.2,
                old(self)@.3,
                old(self)@.4,
                old(self)@.5,
                local_table_version,
            ),
    {
        self.local_table_version = local_table_version;
    }

    /// The identifier of the fields set so far.
    pub fn build(self) -> (r: NumericId)
        ensures
            r.spec_packed() == pack_tuple(self@),
            fields_of(r) == self@,
    {
        NumericId::new(
            self.product_discipline,
            self.parameter_category,
            self.parameter_number,
            self.master_table_version,
            self.originating_center,
            self.subcenter,
            self.local_table_version,
        )
    }
}

/// `value_to_shift` moved `n_bytes` bytes to the left.
fn shift_left_by_n_bytes(value_to_shift: u64, n_bytes: u64) -> (r: u64)
    requires
        n_bytes < 8,
    ensures
        r == value_to_shift << (8 * n_bytes) as u64,
{
    let n_bits = N_BITS_PER_BYTE * n_bytes;
    value_to_shift << n_bits
}

/// Each field can be read back from its byte(s) of the packed integer.
pub proof fn lemma_fields_of_packed(
    product_discipline: u8,
    parameter_category: u8,
    parameter_number: u8,
    master_table_version: u8,
    originating_center: u16,
    subcenter: u8,
    local_table_version: u8,
)
    by (bit_vector)
    ensures
        ({
            let p = pack_fields(
                product_discipline,
                parameter_category,
                parameter_number,
                master_table_version,
                originating_center,
                subcenter,
                local_table_version,
            );
            &&& byte_of(p, 7) == product_discipline
            &&& byte_of(p, 6) == parameter_category
            &&& byte_of(p, 5) == parameter_number
            &&& byte_of(p, 4) == master_table_version
            &&& ((byte_of(p, 3) as u16) << 8u16) | (byte_of(p, 2) as u16) == originating_center
            &&& byte_of(p, 1) == subcenter
            &&& byte_of(p, 0) == local_table_version
        }),
{
}


/// Building and then reading back gives the fields that were put in, each of the seven
/// exactly, the two-byte originating center included.
pub proof fn lemma_build_round_trip(f: NumericIdFields)
    ensures
        byte_of(pack_tuple(f), 7) == f.0,
        byte_of(pack_tuple(f), 6) == f.1,
        byte_of(pack_tuple(f), 5) == f.2,
        byte_of(pack_tuple(f), 4) == f.3,
        ((byte_of(pack_tuple(f), 3) as u16) << 8u16) | (byte_of(pack_tuple(f), 2) as u16) == f.4,
        byte_of(pack_tuple(f), 1) == f.5,
        byte_of(pack_tuple(f), 0) == f.6,
{
    lemma_fields_of_packed(f.0, f.1, f.2, f.3, f.4, f.5, f.6);
}

/// Two different field tuples never pack to the same integer.
pub proof fn lemma_build_injective(a: NumericIdFields, b: NumericIdFields)
    requires
        a != b,
    ensures
        pack_tuple(a) != pack_tuple(b),
{
    lemma_build_round_trip(a);
    lemma_build_round_trip(b);
}

/// All identifiers of one discipline and category lie between the identifier of that
/// category with every other field zero and the one with every other field all ones, so
/// that one range of the packed order holds exactly one category.
pub proof fn lemma_category_range(f: NumericIdFields)
    ensures
        pack_fields(f.0, f.1, 0, 0, 0, 0, 0) <= pack_tuple(f) <= pack_fields(
            f.0,
            f.1,
            0xFF,
            0xFF,
            0xFFFF,
            0xFF,
            0xFF,
        ),
{
    lemma_range_bits(f.0, f.1, f.2, f.3, f.4, f.5, f.6);
}

proof fn lemma_range_bits(d: u8, c: u8, n: u8, m: u8, o: u16, s: u8, l: u8)
    by (bit_vector)
    ensures
        pack_fields(d, c, 0, 0, 0, 0, 0) <= pack_fields(d, c, n, m, o, s, l),
        pack_fields(d, c, n, m, o, s, l) <= pack_fields(d, c, 0xFF, 0xFF, 0xFFFF, 0xFF, 0xFF),
{
}

/// The packed order sorts by discipline first, then by category, then by parameter
/// number.
pub proof fn lemma_order_groups(a: NumericIdFields, b: NumericIdFields)
    ensures
        a.0 < b.0 ==> pack_tuple(a) < pack_tuple(b),
        a.0 == b.0 && a.1 < b.1 ==> pack_tuple(a) < pack_tuple(b),
        a.0 == b.0 && a.1 == b.1 && a.2 < b.2 ==> pack_tuple(a) < pack_tuple(b),
{
    lemma_order_bits(a.0, a.1, a.2, a.3, a.4, a.5, a.6, b.0, b.1, b.2, b.3, b.4, b.5, b.6);
}

proof fn lemma_order_bits(
    d1: u8,
    c1: u8,
    n1: u8,
    m1: u8,
    o1: u16,
    s1: u8,
    l1: u8,
    d2: u8,
    c2: u8,
    n2: u8,
    m2: u8,
    o2: u16,
    s2: u8,
    l2: u8,
)
    by (bit_vector)
    ensures
        d1 < d2 ==> pack_fields(d1, c1, n1, m1, o1, s1, l1) < pack_fields(
            d2,
            c2,
            n2,
            m2,
            o2,
            s2,
            l2,
        ),
        d1 == d2 && c1 < c2 ==> pack_fields(d1, c1, n1, m1, o1, s1, l1) < pack_fields(
            d2,
            c2,
            n2,
            m2,
            o2,
            s2,
            l2,
        ),
        d1 == d2 && c1 == c2 && n1 < n2 ==> pack_fields(d1, c1, n1, m1, o1, s1, l1)
            < pack_fields(d2, c2, n2, m2, o2, s2, l2),
{
}

} // verus!
