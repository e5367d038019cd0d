use vstd::prelude::*;

verus! {

/// The element type announced by the third byte of an IDX file's magic number.
#[allow(non_camel_case_types)]
#[derive(Debug, Clone, Copy, PartialEq, Eq, Structural)]
pub enum IDX_DATA_TYPE {
    U8,
    I8,
    I16,
    I32,
    F32,
    F64,
}

/// The type code that stands for each element type in the IDX format.
pub open spec fn type_code(t: IDX_DATA_TYPE) -> u8 {
    match t {
        IDX_DATA_TYPE::U8 => 0x08,
        IDX_DATA_TYPE::I8 => 0x09,
        IDX_DATA_TYPE::I16 => 0x0B,
        IDX_DATA_TYPE::I32 => 0x0C,
        IDX_DATA_TYPE::F32 => 0x0D,
        IDX_DATA_TYPE::F64 => 0x0E,
    }
}

/// Whether a byte is one of the six type codes.
pub open spec fn is_type_code(b: u8) -> bool {
    b == 0x08 || b == 0x09 || b == 0x0B || b == 0x0C || b == 0x0D || b == 0x0E
}

impl IDX_DATA_TYPE {
    /// Decodes a type code; `None` for a byte that names no element type.
    pub fn from_u8(value: u8) -> (r: Option<IDX_DATA_TYPE>)
        ensures
            r.is_some() <==> is_type_code(value),
            r matches Some(t) ==> type_code(t) == value,
    {
        match value {
            0x08 => Some(IDX_DATA_TYPE::U8),
            0x09 => Some(IDX_DATA_TYPE::I8),
            0x0B => Some(IDX_DATA_TYPE::I16),
            0x0C => Some(IDX_DATA_TYPE::I32),
            0x0D => Some(IDX_DATA_TYPE::F32),
            0x0E => Some(IDX_DATA_TYPE::F64),
            _ => None,
        }
    }

    /// The kind and byte width of the values that this element type stores.
    pub fn to_type(&self) -> (r: ElementFormat)
        ensures
            r == element_format(*self),
    {
        match self {
            IDX_DATA_TYPE::U8 => ElementFormat { kind: ScalarKind::Unsigned, width: 1 },
            IDX_DATA_TYPE::I8 => ElementFormat { kind: ScalarKind::Signed, width: 1 },
            IDX_DATA_TYPE::I16 => ElementFormat { kind: ScalarKind::Signed, width: 2 },
            IDX_DATA_TYPE::I32 => ElementFormat { kind: ScalarKind::Signed, width: 4 },
            IDX_DATA_TYPE::F32 => ElementFormat { kind: ScalarKind::Floating, width: 4 },
            IDX_DATA_TYPE::F64 => ElementFormat { kind: ScalarKind::Floating, width: 8 },
        }
    }
}

/// How the bits of one stored value are read.
#[derive(Debug, Clone, Copy, PartialEq, Eq, Structural)]
pub enum ScalarKind {
    Unsigned,
    Signed,
    Floating,
}

/// The kind of an element type together with its width in bytes.
#[derive(Debug, Clone, Copy, PartialEq, Eq, Structural)]
pub struct ElementFormat {
    pub kind: ScalarKind,
    pub width: usize,
}

pub open spec fn element_format(t: IDX_DATA_TYPE) -> ElementFormat {
    match t {
        IDX_DATA_TYPE::U8 => ElementFormat { kind: ScalarKind::Unsigned, width: 1 },
        IDX_DATA_TYPE::I8 => ElementFormat { kind: ScalarKind::Signed, width: 1 },
        IDX_DATA_TYPE::I16 => ElementFormat { kind: ScalarKind::Signed, width: 2 },
        IDX_DATA_TYPE::I32 => ElementFormat { kind: ScalarKind::Signed, width: 4 },
        IDX_DATA_TYPE::F32 => ElementFormat { kind: ScalarKind::Floating, width: 4 },
        IDX_DATA_TYPE::F64 => ElementFormat { kind: ScalarKind::Floating, width: 8 },
    }
}

/// Reads the four-byte magic number at the start of an IDX file: the element type from its
/// third byte and the number of dimensions from its fourth. `None` when fewer than four bytes
/// are given or the third byte is no type code.
pub fn read_magic_number(data: &[u8]) -> (r: Option<(IDX_DATA_TYPE, usize)>)
    ensures
        r.is_some() <==> (data@.len() >= 4 && is_type_code(data@[2])),
        r matches Some((t, n)) ==> type_code(t) == data@[2] && n == data@[3] as usize,
{
    if data.len() < 4 {
        return None;
    }
    let data_type = match IDX_DATA_TYPE::from_u8(data[2]) {
        Some(t) => t,
        None => return None,
    };
    let dimensions = data[3] as usize;
    Some((data_type, dimensions))
}

/// The unsigned integer that four bytes give in big-endian order.
pub open spec fn be_u32(b0: u8, b1: u8, b2: u8, b3: u8) -> int {
    b0 as int * 0x1000000 + b1 as int * 0x10000 + b2 as int * 0x100 + b3 as int
}

/// The big-endian integer that starts at byte `at` of `data`.
pub open spec fn be_u32_at(data: Seq<u8>, at: int) -> int {
    be_u32(data[at], data[at + 1], data[at + 2], data[at + 3])
}

/// Reads a big-endian `u32` from four bytes starting at `at`.
pub fn read_be_u32(data: &[u8], at: usize) -> (r: u32)
    requires
        at + 4 <= data@.len(),
    ensures
        r as int == be_u32_at(data@, at as int),
{
    let b0 = data[at] as u32;
    let b1 = data[at + 1] as u32;
    let b2 = data[at + 2] as u32;
    let b3 = data[at + 3] as u32;
    assert(b0 * 0x1000000 + b1 * 0x10000 + b2 * 0x100 + b3 <= 0xffff_ffff) by (nonlinear_arith)
        requires
            b0 <= 255,
            b1 <= 255,
            b2 <= 255,
            b3 <= 255,
    ;
    b0 * 0x1000000 + b1 * 0x10000 + b2 * 0x100 + b3
}

/// The header of an IDX file: element type, the size of each dimension, and the offset at which
/// the values begin.
#[derive(Debug, Clone, PartialEq)]
pub struct IdxHeader {
    pub data_type: IDX_DATA_TYPE,
    pub dims: Vec<usize>,
    pub data_start: usize,
}

/// Whether `h` is the header that `data` begins with: a magic number whose third byte is the
/// type code and whose fourth is the number of dimensions, followed by one big-endian size for
/// each dimension.
pub open spec fn is_header_of(data: Seq<u8>, h: IdxHeader) -> bool {
    &&& data.len() >= 4
    &&& type_code(h.data_type) == data[2]
    &&& h.dims@.len() == data[3] as int
    &&& h.data_start as int == 4 + 4 * h.dims@.len()
    &&& h.data_start as int <= data.len()
    &&& forall|i: int| 0 <= i < h.dims@.len() ==> h.dims@[i] as int == be_u32_at(data, 4 + 4 * i)
}

/// Whether `data` is long enough to hold a magic number with a known type code and all the
/// dimension sizes that it announces.
pub open spec fn has_header(data: Seq<u8>) -> bool {
    &&& data.len() >= 4
    &&& is_type_code(data[2])
    &&& 4 + 4 * (data[3] as int) <= data.len()
}

/// Reads the magic number and the dimension sizes of an IDX file. `None` when the magic number
/// cannot be read or the bytes end before the last dimension size.
pub fn read_header(data: &[u8]) -> (r: Option<IdxHeader>)
    ensures
        r.is_some() <==> has_header(data@),
        r matches Some(h) ==> is_header_of(data@, h),
{
    let (data_type, dimensions) = match read_magic_number(data) {
        Some(m) => m,
        None => return None,
    };
    if data.len() < 4 || (data.len() - 4) / 4 < dimensions {
        return None;
    }
    let mut dims: Vec<usize> = Vec::new();
    let mut i: usize = 0;
    while i < dimensions
        invariant
            i <= dimensions,
            dimensions == data@[3] as usize,
            4 + 4 * dimensions <= data@.len(),
            dims@.len() == i,
            forall|k: int| 0 <= k < i ==> dims@[k] as int == be_u32_at(data@, 4 + 4 * k),
        decreases dimensions - i,
    {
        let size = read_be_u32(data, 4 + 4 * i);
        dims.push(size as usize);
        i = i + 1;
    }
    Some(IdxHeader { data_type, dims, data_start: 4 + 4 * dimensions })
}

} // verus!
