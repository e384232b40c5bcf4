//! Runtime values, shared references to them, and the conversions between
//! values and native Rust types.
use crate::collections::{list_items, map_entries, RefList, RefMap};
use crate::number::{
    canonical, canonical_pattern, float_eq, is_nan, nan, dropped_bits, exact_integer_in, integer_in_range, integer_value, pattern_of_integer, round_to_binary64,
    rounded,
};
use crate::vm::OdraError;
use std::sync::Arc;
use vstd::arithmetic::power2::{lemma2_to64, lemma2_to64_rest, pow2};
use vstd::prelude::*;
use vstd::std_specs::cmp::PartialEqSpec;

verus! {

/// A runtime value. Values are immutable: deriving a new list or map from an
/// old one leaves the old one as it was. Equality and hashing go by the bit
/// pattern of numbers, and by reference equality for what lists and maps hold.
#[derive(Debug, Clone, PartialEq, Hash)]
pub enum OdraValue {
    /// A binary64 floating-point number, held as its IEEE-754 bit pattern.
    Number(u64),
    String(String),
    List(RefList),
    Mapping(RefMap),
}

/// The identity of a reference for equality and hashing: numbers by their
/// value (both zeros alike), strings by their characters, NaNs, lists and
/// maps by their allocation.
pub enum RefKey {
    Number(u64),
    Text(Seq<char>),
    NotANumber(usize),
    Shared(usize),
}

/// What a reference hashes: the executable counterpart of `RefKey`.
#[derive(Debug, Hash)]
pub enum HashKey {
    Number(u64),
    Text(String),
    NotANumber(usize),
    Shared(usize),
}

impl HashKey {
    /// The reference key that this hash key stands for.
    pub open spec fn key(self) -> RefKey {
        match self {
            HashKey::Number(b) => RefKey::Number(b),
            HashKey::Text(s) => RefKey::Text(s@),
            HashKey::NotANumber(a) => RefKey::NotANumber(a),
            HashKey::Shared(a) => RefKey::Shared(a),
        }
    }
}

impl Clone for HashKey {
    fn clone(&self) -> (r: HashKey)
        ensures
            r == *self,
    {
        match self {
            HashKey::Number(b) => HashKey::Number(*b),
            HashKey::Text(s) => HashKey::Text(s.clone()),
            HashKey::NotANumber(a) => HashKey::NotANumber(*a),
            HashKey::Shared(a) => HashKey::Shared(*a),
        }
    }
}

/// A shared handle to one immutable value.
///
/// Two references to numbers are equal when the numbers are equal as floats
/// (+0.0 equals -0.0), or, for NaNs, when they are the same allocation. Two
/// references to strings are equal when the strings are. Lists and maps are
/// compared by allocation only.
#[derive(Debug)]
pub struct OdraRef {
    cell: Arc<OdraValue>,
    addr: usize,
    hashed: HashKey,
}

/// Relies on `Arc::as_ptr`: the address of the allocation, which tells
/// allocations apart while they live. Nothing is known of its value.
#[verifier::external_body]
fn allocation_address(cell: &Arc<OdraValue>) -> usize {
    Arc::as_ptr(cell) as usize
}

/// Relies on `Arc::clone`: a new handle to the same allocation.
#[verifier::external_body]
pub(crate) fn share<T>(cell: &Arc<T>) -> (r: Arc<T>)
    ensures
        r == *cell,
{
    Arc::clone(cell)
}

impl OdraRef {
    /// The value that the reference points to.
    pub closed spec fn value(self) -> OdraValue {
        *self.cell
    }

    /// The allocation that the reference points to.
    pub closed spec fn allocation(self) -> usize {
        self.addr
    }

    /// What equality and hashing see of the reference.
    pub open spec fn key(self) -> RefKey {
        match self.value() {
            OdraValue::Number(b) => if is_nan(b) {
                RefKey::NotANumber(self.allocation())
            } else {
                RefKey::Number(canonical(b))
            },
            OdraValue::String(s) => RefKey::Text(s@),
            _ => RefKey::Shared(self.allocation()),
        }
    }

    /// What the reference feeds a hasher.
    pub closed spec fn hashed(self) -> HashKey {
        self.hashed
    }

    /// The hash key stands for the reference's key.
    #[verifier::type_invariant]
    pub closed spec fn well_formed(self) -> bool {
        self.hashed.key() == self.key()
    }

    /// Puts `value` in a new allocation.
    pub fn new(value: OdraValue) -> (r: OdraRef)
        ensures
            r.value() == value,
    {
        let cell = Arc::new(value);
        let addr = allocation_address(&cell);
        let hashed = match &*cell {
            OdraValue::Number(b) => if nan(*b) {
                HashKey::NotANumber(addr)
            } else {
                HashKey::Number(canonical_pattern(*b))
            },
            OdraValue::String(s) => HashKey::Text(s.clone()),
            _ => HashKey::Shared(addr),
        };
        OdraRef { cell, addr, hashed }
    }

    /// The value that the reference points to.
    pub fn get(&self) -> (r: &OdraValue)
        ensures
            *r == self.value(),
    {
        &*self.cell
    }

    /// Whether both references point to the same allocation.
    pub fn same_allocation(&self, other: &OdraRef) -> (r: bool)
        ensures
            r == (self.allocation() == other.allocation()),
    {
        self.addr == other.addr
    }

    /// What the reference feeds a hasher: the executable form of `key`.
    pub fn hash_key(&self) -> (r: HashKey)
        ensures
            r == self.hashed(),
            r.key() == self.key(),
    {
        proof {
            use_type_invariant(self);
        }
        self.hashed.clone()
    }

    /// Reference equality: strings by content; numbers as floats, so +0.0
    /// equals -0.0 and a NaN equals only a reference to the same allocation;
    /// lists and maps by allocation.
    pub fn ref_eq(&self, other: &OdraRef) -> (r: bool)
        ensures
            r == (self.key() == other.key()),
    {
        match (&*self.cell, &*other.cell) {
            (OdraValue::Number(a), OdraValue::Number(b)) => {
                let nan_a = nan(*a);
                let nan_b = nan(*b);
                if nan_a && nan_b {
                    self.addr == other.addr
                } else if nan_a || nan_b {
                    false
                } else {
                    canonical_pattern(*a) == canonical_pattern(*b)
                }
            },
            (OdraValue::String(a), OdraValue::String(b)) => *a == *b,
            (OdraValue::Number(_), _) | (OdraValue::String(_), _) => false,
            (_, OdraValue::Number(_)) | (_, OdraValue::String(_)) => false,
            _ => self.addr == other.addr,
        }
    }
}

impl Clone for OdraRef {
    fn clone(&self) -> (r: OdraRef)
        ensures
            r == *self,
    {
        proof {
            use_type_invariant(self);
        }
        OdraRef { cell: share(&self.cell), addr: self.addr, hashed: self.hashed.clone() }
    }
}

impl PartialEq for OdraRef {
    fn eq(&self, other: &OdraRef) -> (r: bool) {
        self.ref_eq(other)
    }
}

impl vstd::std_specs::cmp::PartialEqSpecImpl for OdraRef {
    open spec fn obeys_eq_spec() -> bool {
        true
    }

    open spec fn eq_spec(&self, other: &OdraRef) -> bool {
        self.key() == other.key()
    }
}

impl Eq for OdraRef {}

impl std::hash::Hash for OdraRef {
    /// Relies on the derived `Hash` of `HashKey`: hashes the stored key
    /// alone, so that equal references hash alike.
    #[verifier::external_body]
    fn hash<H: std::hash::Hasher>(&self, state: &mut H) {
        self.hashed.hash(state)
    }
}

/// Whether a value is a list or a map.
pub open spec fn is_aggregate(v: OdraValue) -> bool {
    v is List || v is Mapping
}

/// Whether `x` is a key or a value of an entry of `m`.
pub open spec fn map_holds(m: RefMap, x: OdraRef) -> bool {
    exists|k: RefKey| #[trigger]
        map_entries(m).contains_key(k) && (x == map_entries(m)[k].0 || x == map_entries(m)[k].1)
}

impl OdraValue {
    /// The references that a list holds, in order; none for any other value
    /// (a map's are described by `map_holds`).
    pub open spec fn list_edges(self) -> Seq<OdraRef> {
        match self {
            OdraValue::List(l) => list_items(l),
            _ => Seq::empty(),
        }
    }

    /// The references that the value holds: each element of a list in order;
    /// each key and each value of a map; nothing for a number or a string.
    pub fn edges(&self) -> (r: Vec<OdraRef>)
        ensures
            match self {
                OdraValue::Mapping(m) => {
                    &&& r.len() == 2 * map_entries(*m).len()
                    &&& forall|i: int| 0 <= i < r.len() ==> map_holds(*m, #[trigger] r@[i])
                    &&& forall|k: RefKey| #[trigger]
                        map_entries(*m).contains_key(k) ==> exists|i: int|
                            0 <= i < r.len() - 1 && #[trigger] r@[i] == map_entries(*m)[k].0 && r@[i + 1]
                                == map_entries(*m)[k].1
                },
                _ => r@ == self.list_edges(),
            },
    {
        match self {
            OdraValue::List(l) => l.to_vec(),
            OdraValue::Mapping(m) => {
                let entries = m.entries();
                let mut out: Vec<OdraRef> = Vec::new();
                let mut i: usize = 0;
                while i < entries.len()
                    invariant
                        0 <= i <= entries.len(),
                        entries.len() == map_entries(*m).len(),
                        out.len() == 2 * i,
                        forall|j: int|
                            0 <= j < entries.len() ==> #[trigger] map_entries(
                                *m,
                            ).contains_key(entries@[j].0.key()) && map_entries(*m)[entries@[j].0.key()]
                                == entries@[j],
                        forall|k: RefKey| #[trigger]
                            map_entries(*m).contains_key(k) ==> exists|j: int|
                                0 <= j < entries.len() && #[trigger] entries@[j].0.key() == k,
                        forall|j: int|
                            0 <= j < i ==> out@[2 * j] == #[trigger] entries@[j].0 && out@[2 * j
                                + 1] == entries@[j].1,
                    decreases entries.len() - i,
                {
                    let k = entries[i].0.clone();
                    let v = entries[i].1.clone();
                    out.push(k);
                    out.push(v);
                    i = i + 1;
                }
                proof {
                    assert forall|j: int| 0 <= j < out.len() implies map_holds(*m, #[trigger] out@[j]) by {
                        let e = j / 2;
                        assert(0 <= e < entries.len());
                        assert(j == 2 * e || j == 2 * e + 1);
                        assert(out@[2 * e] == entries@[e].0);
                        assert(map_entries(*m).contains_key(entries@[e].0.key()));
                    }
                    assert forall|k: RefKey| #[trigger]
                        map_entries(*m).contains_key(k) implies exists|j: int|
                            0 <= j < out.len() - 1 && #[trigger] out@[j] == map_entries(*m)[k].0 && out@[j + 1]
                                == map_entries(*m)[k].1 by {
                        let e = choose|e: int|
                            0 <= e < entries.len() && #[trigger] entries@[e].0.key() == k;
                        assert(out@[2 * e] == entries@[e].0);
                    }
                }
                out
            },
            _ => Vec::new(),
        }
    }
}

/// The type of a value, as a word declares what it takes and gives.
#[derive(Debug, Clone, PartialEq)]
pub enum OdraType {
    Number,
    String,
    OtherNamed(String),
}

/// A native type that converts into a value.
pub trait AsOdraValue: AsOdraType + Sized {
    /// Whether `v` is what `self` converts to.
    spec fn converts_to(&self, v: OdraValue) -> bool;

    fn as_odra_value(self) -> (r: OdraValue)
        ensures
            self.converts_to(r),
    ;
}

/// A native type with the type tag it has on the stack (none for a
/// parameter that is handed the machine itself).
pub trait AsOdraType {
    spec fn spec_odra_type() -> Option<OdraType>;

    fn odra_type() -> (r: Option<OdraType>)
        ensures
            r == Self::spec_odra_type(),
    ;
}

/// A native type that a value converts into, or fails to.
pub trait FromOdraValue: Sized {
    /// What `v` converts to, if it converts.
    spec fn spec_from_odra_value(v: OdraValue) -> Option<Self>;

    fn from_odra_value(odra_value: OdraValue) -> (r: Result<Self, OdraError>)
        ensures
            match r {
                Ok(x) => Self::spec_from_odra_value(odra_value) == Some(x),
                Err(e) => Self::spec_from_odra_value(odra_value) is None && e
                    == OdraError::Conversion,
            },
    ;
}

/// Whether `v` is the number that the integer `i` widens to.
pub open spec fn widens_to(i: int, v: OdraValue) -> bool {
    &&& v matches OdraValue::Number(b)
    &&& integer_value(b) == Some(round_to_binary64(i))
    &&& (i == 0 ==> b == 0)
}

/// What `v` converts to as an integer in `lo..=hi`.
pub open spec fn integer_of(v: OdraValue, lo: int, hi: int) -> Option<int> {
    match v {
        OdraValue::Number(b) => integer_in_range(b, lo, hi),
        _ => None,
    }
}

/// Widens an integer of magnitude below 2^64 to a number.
fn widen(i: i128) -> (r: OdraValue)
    requires
        -0x1_0000_0000_0000_0000 < i < 0x1_0000_0000_0000_0000,
    ensures
        widens_to(i as int, r),
{
    if i < 0 {
        OdraValue::Number(pattern_of_integer(true, (-i) as u64))
    } else {
        OdraValue::Number(pattern_of_integer(false, i as u64))
    }
}

/// Narrows a value to an integer in `lo..=hi`, failing unless the value is a
/// number that denotes such an integer exactly.
fn narrow(v: OdraValue, lo: i128, hi: i128) -> (r: Result<i128, OdraError>)
    requires
        -0x1_0000_0000_0000_0000 < lo <= hi < 0x1_0000_0000_0000_0000,
    ensures
        match r {
            Ok(i) => integer_of(v, lo as int, hi as int) == Some(i as int),
            Err(e) => integer_of(v, lo as int, hi as int) is None && e == OdraError::Conversion,
        },
{
    match v {
        OdraValue::Number(b) => match exact_integer_in(b, lo, hi) {
            Some(i) => Ok(i),
            None => Err(OdraError::Conversion),
        },
        _ => Err(OdraError::Conversion),
    }
}

/// Integers below 2^53 in magnitude widen exactly.
pub proof fn lemma_small_integers_exact(i: int)
    requires
        -0x20_0000_0000_0000 <= i <= 0x20_0000_0000_0000,
    ensures
        round_to_binary64(i) == i,
{
    lemma2_to64();
    lemma2_to64_rest();
    let m: nat = if i < 0 { (-i) as nat } else { i as nat };
    if m < pow2(53) {
        assert(dropped_bits(m) == 0);
    } else {
        assert(m == pow2(53));
        assert(dropped_bits((m / 2) as nat) == 0);
        assert(dropped_bits(m) == 1);
        assert(m % pow2(1) == 0);
        assert(m / pow2(1) % 2 == 0);
        assert(rounded(m) == m);
    }
}

impl AsOdraType for u8 {
    open spec fn spec_odra_type() -> Option<OdraType> {
        Some(OdraType::Number)
    }

    fn odra_type() -> (r: Option<OdraType>) {
        Some(OdraType::Number)
    }
}

impl AsOdraValue for u8 {
    open spec fn converts_to(&self, v: OdraValue) -> bool {
        widens_to(*self as int, v)
    }

    fn as_odra_value(self) -> (r: OdraValue) {
        widen(self as i128)
    }
}

impl FromOdraValue for u8 {
    open spec fn spec_from_odra_value(v: OdraValue) -> Option<u8> {
        match integer_of(v, 0, 0xff) {
            Some(i) => Some(i as u8),
            None => None,
        }
    }

    fn from_odra_value(odra_value: OdraValue) -> (r: Result<u8, OdraError>) {
        match narrow(odra_value, 0, 0xff) {
            Ok(i) => Ok(i as u8),
            Err(e) => Err(e),
        }
    }
}

impl AsOdraType for u16 {
    open spec fn spec_odra_type() -> Option<OdraType> {
        Some(OdraType::Number)
    }

    fn odra_type() -> (r: Option<OdraType>) {
        Some(OdraType::Number)
    }
}

impl AsOdraValue for u16 {
    open spec fn converts_to(&self, v: OdraValue) -> bool {
        widens_to(*self as int, v)
    }

    fn as_odra_value(self) -> (r: OdraValue) {
        widen(self as i128)
    }
}

impl FromOdraValue for u16 {
    open spec fn spec_from_odra_value(v: OdraValue) -> Option<u16> {
        match integer_of(v, 0, 0xffff) {
            Some(i) => Some(i as u16),
            None => None,
        }
    }

    fn from_odra_value(odra_value: OdraValue) -> (r: Result<u16, OdraError>) {
        match narrow(odra_value, 0, 0xffff) {
            Ok(i) => Ok(i as u16),
            Err(e) => Err(e),
        }
    }
}

impl AsOdraType for u32 {
    open spec fn spec_odra_type() -> Option<OdraType> {
        Some(OdraType::Number)
    }

    fn odra_type() -> (r: Option<OdraType>) {
        Some(OdraType::Number)
    }
}

impl AsOdraValue for u32 {
    open spec fn converts_to(&self, v: OdraValue) -> bool {
        widens_to(*self as int, v)
    }

    fn as_odra_value(self) -> (r: OdraValue) {
        widen(self as i128)
    }
}

impl FromOdraValue for u32 {
    open spec fn spec_from_odra_value(v: OdraValue) -> Option<u32> {
        match integer_of(v, 0, 0xffff_ffff) {
            Some(i) => Some(i as u32),
            None => None,
        }
    }

    fn from_odra_value(odra_value: OdraValue) -> (r: Result<u32, OdraError>) {
        match narrow(odra_value, 0, 0xffff_ffff) {
            Ok(i) => Ok(i as u32),
            Err(e) => Err(e),
        }
    }
}

impl AsOdraType for u64 {
    open spec fn spec_odra_type() -> Option<OdraType> {
        Some(OdraType::Number)
    }

    fn odra_type() -> (r: Option<OdraType>) {
        Some(OdraType::Number)
    }
}

impl AsOdraValue for u64 {
    open spec fn converts_to(&self, v: OdraValue) -> bool {
        widens_to(*self as int, v)
    }

    fn as_odra_value(self) -> (r: OdraValue) {
        widen(self as i128)
    }
}

impl FromOdraValue for u64 {
    open spec fn spec_from_odra_value(v: OdraValue) -> Option<u64> {
        match integer_of(v, 0, 0xffff_ffff_ffff_ffff) {
            Some(i) => Some(i as u64),
            None => None,
        }
    }

    fn from_odra_value(odra_value: OdraValue) -> (r: Result<u64, OdraError>) {
        match narrow(odra_value, 0, 0xffff_ffff_ffff_ffff) {
            Ok(i) => Ok(i as u64),
            Err(e) => Err(e),
        }
    }
}

impl AsOdraType for i8 {
    open spec fn spec_odra_type() -> Option<OdraType> {
        Some(OdraType::Number)
    }

    fn odra_type() -> (r: Option<OdraType>) {
        Some(OdraType::Number)
    }
}

impl AsOdraValue for i8 {
    open spec fn converts_to(&self, v: OdraValue) -> bool {
        widens_to(*self as int, v)
    }

    fn as_odra_value(self) -> (r: OdraValue) {
        widen(self as i128)
    }
}

impl FromOdraValue for i8 {
    open spec fn spec_from_odra_value(v: OdraValue) -> Option<i8> {
        match integer_of(v, -0x80, 0x7f) {
            Some(i) => Some(i as i8),
            None => None,
        }
    }

    fn from_odra_value(odra_value: OdraValue) -> (r: Result<i8, OdraError>) {
        match narrow(odra_value, -0x80, 0x7f) {
            Ok(i) => Ok(i as i8),
            Err(e) => Err(e),
        }
    }
}

impl AsOdraType for i16 {
    open spec fn spec_odra_type() -> Option<OdraType> {
        Some(OdraType::Number)
    }

    fn odra_type() -> (r: Option<OdraType>) {
        Some(OdraType::Number)
    }
}

impl AsOdraValue for i16 {
    open spec fn converts_to(&self, v: OdraValue) -> bool {
        widens_to(*self as int, v)
    }

    fn as_odra_value(self) -> (r: OdraValue) {
        widen(self as i128)
    }
}

impl FromOdraValue for i16 {
    open spec fn spec_from_odra_value(v: OdraValue) -> Option<i16> {
        match integer_of(v, -0x8000, 0x7fff) {
            Some(i) => Some(i as i16),
            None => None,
        }
    }

    fn from_odra_value(odra_value: OdraValue) -> (r: Result<i16, OdraError>) {
        match narrow(odra_value, -0x8000, 0x7fff) {
            Ok(i) => Ok(i as i16),
            Err(e) => Err(e),
        }
    }
}

impl AsOdraType for i32 {
    open spec fn spec_odra_type() -> Option<OdraType> {
        Some(OdraType::Number)
    }

    fn odra_type() -> (r: Option<OdraType>) {
        Some(OdraType::Number)
    }
}

impl AsOdraValue for i32 {
    open spec fn converts_to(&self, v: OdraValue) -> bool {
        widens_to(*self as int, v)
    }

    fn as_odra_value(self) -> (r: OdraValue) {
        widen(self as i128)
    }
}

impl FromOdraValue for i32 {
    open spec fn spec_from_odra_value(v: OdraValue) -> Option<i32> {
        match integer_of(v, -0x8000_0000, 0x7fff_ffff) {
            Some(i) => Some(i as i32),
            None => None,
        }
    }

    fn from_odra_value(odra_value: OdraValue) -> (r: Result<i32, OdraError>) {
        match narrow(odra_value, -0x8000_0000, 0x7fff_ffff) {
            Ok(i) => Ok(i as i32),
            Err(e) => Err(e),
        }
    }
}

impl AsOdraType for i64 {
    open spec fn spec_odra_type() -> Option<OdraType> {
        Some(OdraType::Number)
    }

    fn odra_type() -> (r: Option<OdraType>) {
        Some(OdraType::Number)
    }
}

impl AsOdraValue for i64 {
    open spec fn converts_to(&self, v: OdraValue) -> bool {
        widens_to(*self as int, v)
    }

    fn as_odra_value(self) -> (r: OdraValue) {
        widen(self as i128)
    }
}

impl FromOdraValue for i64 {
    open spec fn spec_from_odra_value(v: OdraValue) -> Option<i64> {
        match integer_of(v, -0x8000_0000_0000_0000, 0x7fff_ffff_ffff_ffff) {
            Some(i) => Some(i as i64),
            None => None,
        }
    }

    fn from_odra_value(odra_value: OdraValue) -> (r: Result<i64, OdraError>) {
        match narrow(odra_value, -0x8000_0000_0000_0000, 0x7fff_ffff_ffff_ffff) {
            Ok(i) => Ok(i as i64),
            Err(e) => Err(e),
        }
    }
}

/// A number as its IEEE-754 binary64 bit pattern, for words that compute
/// with floating point outside the library.
#[derive(Debug, Clone, Copy, PartialEq, Eq)]
pub struct Float64Bits {
    pub bits: u64,
}

impl AsOdraType for Float64Bits {
    open spec fn spec_odra_type() -> Option<OdraType> {
        Some(OdraType::Number)
    }

    fn odra_type() -> (r: Option<OdraType>) {
        Some(OdraType::Number)
    }
}

impl AsOdraValue for Float64Bits {
    open spec fn converts_to(&self, v: OdraValue) -> bool {
        v == OdraValue::Number(self.bits)
    }

    fn as_odra_value(self) -> (r: OdraValue) {
        OdraValue::Number(self.bits)
    }
}

impl FromOdraValue for Float64Bits {
    open spec fn spec_from_odra_value(v: OdraValue) -> Option<Float64Bits> {
        match v {
            OdraValue::Number(b) => Some(Float64Bits { bits: b }),
            _ => None,
        }
    }

    fn from_odra_value(odra_value: OdraValue) -> (r: Result<Float64Bits, OdraError>) {
        match odra_value {
            OdraValue::Number(b) => Ok(Float64Bits { bits: b }),
            _ => Err(OdraError::Conversion),
        }
    }
}

impl AsOdraType for String {
    open spec fn spec_odra_type() -> Option<OdraType> {
        Some(OdraType::String)
    }

    fn odra_type() -> (r: Option<OdraType>) {
        Some(OdraType::String)
    }
}

impl AsOdraValue for String {
    open spec fn converts_to(&self, v: OdraValue) -> bool {
        v == OdraValue::String(*self)
    }

    fn as_odra_value(self) -> (r: OdraValue) {
        OdraValue::String(self)
    }
}

impl FromOdraValue for String {
    open spec fn spec_from_odra_value(v: OdraValue) -> Option<String> {
        match v {
            OdraValue::String(s) => Some(s),
            _ => None,
        }
    }

    fn from_odra_value(odra_value: OdraValue) -> (r: Result<String, OdraError>) {
        match odra_value {
            OdraValue::String(s) => Ok(s),
            _ => Err(OdraError::Conversion),
        }
    }
}

/// An integer of magnitude at most 2^53, widened to a number, narrows back
/// to itself in any integer range that holds it.
pub proof fn lemma_integer_round_trip(i: int, v: OdraValue, lo: int, hi: int)
    requires
        -0x20_0000_0000_0000 <= i <= 0x20_0000_0000_0000,
        lo <= i <= hi,
        widens_to(i, v),
    ensures
        integer_of(v, lo, hi) == Some(i),
{
    lemma_small_integers_exact(i);
}

/// A number that denotes no integer exactly (a fraction, an infinity, a NaN)
/// narrows to no integer range.
pub proof fn lemma_inexact_number_narrows_nowhere(b: u64, lo: int, hi: int)
    requires
        integer_value(b) is None,
    ensures
        integer_of(OdraValue::Number(b), lo, hi) is None,
{
}

/// Every `u8` converts to a number and back to itself.
pub proof fn lemma_u8_round_trip(x: u8, v: OdraValue)
    requires
        x.converts_to(v),
    ensures
        u8::spec_from_odra_value(v) == Some(x),
{
    lemma_integer_round_trip(x as int, v, 0, 0xff);
}

/// Every `u16` converts to a number and back to itself.
pub proof fn lemma_u16_round_trip(x: u16, v: OdraValue)
    requires
        x.converts_to(v),
    ensures
        u16::spec_from_odra_value(v) == Some(x),
{
    lemma_integer_round_trip(x as int, v, 0, 0xffff);
}

/// Every `u32` converts to a number and back to itself.
pub proof fn lemma_u32_round_trip(x: u32, v: OdraValue)
    requires
        x.converts_to(v),
    ensures
        u32::spec_from_odra_value(v) == Some(x),
{
    lemma_integer_round_trip(x as int, v, 0, 0xffff_ffff);
}

/// Every `i8` converts to a number and back to itself.
pub proof fn lemma_i8_round_trip(x: i8, v: OdraValue)
    requires
        x.converts_to(v),
    ensures
        i8::spec_from_odra_value(v) == Some(x),
{
    lemma_integer_round_trip(x as int, v, -0x80, 0x7f);
}

/// Every `i16` converts to a number and back to itself.
pub proof fn lemma_i16_round_trip(x: i16, v: OdraValue)
    requires
        x.converts_to(v),
    ensures
        i16::spec_from_odra_value(v) == Some(x),
{
    lemma_integer_round_trip(x as int, v, -0x8000, 0x7fff);
}

/// Every `i32` converts to a number and back to itself.
pub proof fn lemma_i32_round_trip(x: i32, v: OdraValue)
    requires
        x.converts_to(v),
    ensures
        i32::spec_from_odra_value(v) == Some(x),
{
    lemma_integer_round_trip(x as int, v, -0x8000_0000, 0x7fff_ffff);
}

/// Every `u64` up to 2^53 converts to a number and back to itself.
pub proof fn lemma_u64_round_trip(x: u64, v: OdraValue)
    requires
        x <= 0x20_0000_0000_0000,
        x.converts_to(v),
    ensures
        u64::spec_from_odra_value(v) == Some(x),
{
    lemma_integer_round_trip(x as int, v, 0, 0xffff_ffff_ffff_ffff);
}

/// Every `i64` of magnitude up to 2^53 converts to a number and back to itself.
pub proof fn lemma_i64_round_trip(x: i64, v: OdraValue)
    requires
        -0x20_0000_0000_0000 <= x <= 0x20_0000_0000_0000,
        x.converts_to(v),
    ensures
        i64::spec_from_odra_value(v) == Some(x),
{
    lemma_integer_round_trip(x as int, v, -0x8000_0000_0000_0000, 0x7fff_ffff_ffff_ffff);
}

/// Equality of references: references to two numbers are equal exactly when
/// the numbers are equal as floats (+0.0 equals -0.0, a NaN equals nothing)
/// or both are NaNs in the same allocation; references to two strings
/// exactly when the strings are equal; references to two lists or maps
/// exactly when they are the same allocation, whatever their contents; a
/// scalar never equals a list or a map.
pub proof fn lemma_ref_equality(r1: OdraRef, r2: OdraRef)
    ensures
        r1.value() matches OdraValue::Number(a) ==> (r2.value() matches OdraValue::Number(b) ==> (
        r1.eq_spec(&r2) <==> (float_eq(a, b) || (is_nan(a) && is_nan(b) && r1.allocation()
            == r2.allocation())))),
        r1.value() matches OdraValue::String(a) ==> (r2.value() matches OdraValue::String(b) ==> (
        r1.eq_spec(&r2) <==> a@ == b@)),
        (is_aggregate(r1.value()) && is_aggregate(r2.value())) ==> (r1.eq_spec(&r2) <==> r1.allocation()
            == r2.allocation()),
        (is_aggregate(r1.value()) != is_aggregate(r2.value())) ==> !r1.eq_spec(&r2),
{
}

/// Equal references hash alike: what each feeds the hasher stands for the
/// same key.
pub proof fn lemma_equal_refs_hash_alike(r1: OdraRef, r2: OdraRef)
    requires
        r1.well_formed(),
        r2.well_formed(),
        r1.eq_spec(&r2),
    ensures
        r1.hashed().key() == r2.hashed().key(),
{
}

} // verus!
