//! Values of device-tree properties, decoded from their bytes by the property's name.
use vstd::prelude::*;
use vstd::utf8::{valid_utf8, decode_utf8};
use crate::error::ErrorNum;
use crate::text::{bytes_eq, cstr_from_bytes, cstr_text, str_eq};

verus! {

/// The mathematical value of a property.
pub enum ValueModel {
    Empty,
    UInt32(u32),
    UInt64(u64),
    CStr(Seq<char>),
    CStrList(Seq<Seq<char>>),
    Custom(Seq<u8>),
}

/// The value of a device-tree property.
#[derive(Debug)]
pub enum DTBPropertyValue {
    Empty,
    UInt32(u32),
    UInt64(u64),
    CStr(String),
    CStrList(Vec<String>),
    Custom(Vec<u8>),
}

/// The texts of a list of strings.
pub open spec fn texts(v: Seq<String>) -> Seq<Seq<char>> {
    Seq::new(v.len(), |i: int| v[i]@)
}

impl View for DTBPropertyValue {
    type V = ValueModel;

    open spec fn view(&self) -> ValueModel {
        match self {
            DTBPropertyValue::Empty => ValueModel::Empty,
            DTBPropertyValue::UInt32(v) => ValueModel::UInt32(*v),
            DTBPropertyValue::UInt64(v) => ValueModel::UInt64(*v),
            DTBPropertyValue::CStr(s) => ValueModel::CStr(s@),
            DTBPropertyValue::CStrList(l) => ValueModel::CStrList(texts(l@)),
            DTBPropertyValue::Custom(b) => ValueModel::Custom(b@),
        }
    }
}

/// The big-endian number in `b[pos..pos + 4]`.
pub open spec fn be32(b: Seq<u8>, pos: int) -> int {
    b[pos] * 0x100_0000 + b[pos + 1] * 0x1_0000 + b[pos + 2] * 0x100 + b[pos + 3]
}

/// The big-endian number in `b[pos..pos + 8]`.
pub open spec fn be64(b: Seq<u8>, pos: int) -> int {
    be32(b, pos) * 0x1_0000_0000 + be32(b, pos + 4)
}

/// The maximal runs of non-zero bytes of `v` from `i` on, the run in progress being `cur`.
pub open spec fn runs_from(v: Seq<u8>, i: int, cur: Seq<u8>) -> Seq<Seq<u8>>
    decreases v.len() - i,
{
    if i >= v.len() {
        if cur.len() > 0 {
            seq![cur]
        } else {
            seq![]
        }
    } else if v[i] == 0 {
        (if cur.len() > 0 {
            seq![cur]
        } else {
            seq![]
        }) + runs_from(v, i + 1, seq![])
    } else {
        runs_from(v, i + 1, cur.push(v[i]))
    }
}

/// The non-empty strings that zero bytes separate in `v`.
pub open spec fn nul_runs(v: Seq<u8>) -> Seq<Seq<u8>> {
    runs_from(v, 0, seq![])
}

/// The texts of byte strings, `None` when one of them is not UTF-8.
pub open spec fn run_texts(rs: Seq<Seq<u8>>) -> Option<Seq<Seq<char>>> {
    if forall|i: int| 0 <= i < rs.len() ==> valid_utf8(#[trigger] rs[i]) {
        Some(Seq::new(rs.len(), |i: int| decode_utf8(rs[i])))
    } else {
        None
    }
}

/// A string property's value.
pub open spec fn cstr_value(v: Seq<u8>) -> Result<ValueModel, ErrorNum> {
    match cstr_text(v) {
        Some(t) => Ok(ValueModel::CStr(t)),
        None => Err(ErrorNum::EBADCODEX),
    }
}

/// A string-list property's value.
pub open spec fn cstr_list_value(v: Seq<u8>) -> Result<ValueModel, ErrorNum> {
    match run_texts(nul_runs(v)) {
        Some(t) => Ok(ValueModel::CStrList(t)),
        None => Err(ErrorNum::EBADCODEX),
    }
}

/// A 32-bit property's value.
pub open spec fn u32_value(v: Seq<u8>) -> Result<ValueModel, ErrorNum> {
    if v.len() == 4 {
        Ok(ValueModel::UInt32(be32(v, 0) as u32))
    } else {
        Err(ErrorNum::EBADDTB)
    }
}

/// A 64-bit property's value.
pub open spec fn u64_value(v: Seq<u8>) -> Result<ValueModel, ErrorNum> {
    if v.len() == 8 {
        Ok(ValueModel::UInt64(be64(v, 0) as u64))
    } else {
        Err(ErrorNum::EBADDTB)
    }
}

/// The value of the property named `name` whose bytes are `v`.
pub open spec fn property_value(name: Seq<char>, v: Seq<u8>) -> Result<ValueModel, ErrorNum> {
    if name == "riscv,isa"@ {
        cstr_value(v)
    } else if name == "mmu-type"@ {
        cstr_value(v)
    } else if name == "compatible"@ {
        cstr_list_value(v)
    } else if name == "model"@ {
        cstr_value(v)
    } else if name == "device_type"@ {
        cstr_value(v)
    } else if name == "phandle"@ {
        u32_value(v)
    } else if name == "status"@ {
        cstr_value(v)
    } else if name == "#address-cells"@ {
        u32_value(v)
    } else if name == "#size-cells"@ {
        u32_value(v)
    } else if name == "reg"@ {
        Ok(ValueModel::Custom(v))
    } else if name == "virtual-reg"@ {
        u32_value(v)
    } else if name == "ranges"@ {
        Ok(ValueModel::Custom(v))
    } else if name == "dma-range"@ {
        Ok(ValueModel::Custom(v))
    } else if name == "interrupts"@ {
        u32_value(v)
    } else if name == "interrupt-parent"@ {
        u32_value(v)
    } else if name == "#interrupt-cells"@ {
        u32_value(v)
    } else if name == "interrupt-controller"@ {
        Ok(ValueModel::Empty)
    } else if name == "interrupts-extended"@ {
        Ok(ValueModel::Custom(v))
    } else if name == "interrupt-map-mask"@ {
        Ok(ValueModel::Custom(v))
    } else if name == "regmap"@ {
        u32_value(v)
    } else if name == "offset"@ {
        u32_value(v)
    } else if name == "value"@ {
        u32_value(v)
    } else if name == "cpu"@ {
        u32_value(v)
    } else if name == "clock-frequency"@ {
        if v.len() == 4 {
            u32_value(v)
        } else if v.len() == 8 {
            u64_value(v)
        } else {
            Err(ErrorNum::EBADDTB)
        }
    } else {
        Ok(ValueModel::Custom(v))
    }
}

/// Comparing two values: equal or not when both have the same kind (not
/// empty), a type error otherwise.
pub open spec fn values_equal(a: ValueModel, b: ValueModel) -> Result<bool, ErrorNum> {
    match (a, b) {
        (ValueModel::UInt32(x), ValueModel::UInt32(y)) => Ok(x == y),
        (ValueModel::UInt64(x), ValueModel::UInt64(y)) => Ok(x == y),
        (ValueModel::CStr(x), ValueModel::CStr(y)) => Ok(x == y),
        (ValueModel::CStrList(x), ValueModel::CStrList(y)) => Ok(x == y),
        (ValueModel::Custom(x), ValueModel::Custom(y)) => Ok(x == y),
        _ => Err(ErrorNum::EBADTYPE),
    }
}

/// Whether a string list holds `t`: a type error for other kinds.
pub open spec fn list_contains(a: ValueModel, t: Seq<char>) -> Result<bool, ErrorNum> {
    match a {
        ValueModel::CStrList(l) => Ok(l.contains(t)),
        _ => Err(ErrorNum::EBADTYPE),
    }
}

fn clone_strings(v: &Vec<String>) -> (r: Vec<String>)
    ensures
        texts(r@) == texts(v@),
{
    let mut r: Vec<String> = Vec::new();
    let mut i: usize = 0;
    while i < v.len()
        invariant
            i <= v@.len(),
            r@.len() == i,
            forall|j: int| 0 <= j < i ==> #[trigger] r@[j]@ == v@[j]@,
        decreases v@.len() - i,
    {
        r.push(v[i].clone());
        i = i + 1;
    }
    assert(texts(r@) =~= texts(v@));
    r
}

fn strings_eq(a: &Vec<String>, b: &Vec<String>) -> (r: bool)
    ensures
        r == (texts(a@) == texts(b@)),
{
    if a.len() != b.len() {
        proof {
            assert(texts(a@).len() != texts(b@).len());
        }
        return false;
    }
    let mut i: usize = 0;
    while i < a.len()
        invariant
            a@.len() == b@.len(),
            i <= a@.len(),
            forall|j: int| 0 <= j < i ==> #[trigger] a@[j]@ == b@[j]@,
        decreases a@.len() - i,
    {
        if !str_eq(a[i].as_str(), b[i].as_str()) {
            proof {
                assert(texts(a@)[i as int] != texts(b@)[i as int]);
            }
            return false;
        }
        i = i + 1;
    }
    assert(texts(a@) =~= texts(b@));
    true
}

impl Clone for DTBPropertyValue {
    fn clone(&self) -> (r: Self)
        ensures
            r@ == self@,
    {
        match self {
            DTBPropertyValue::Empty => DTBPropertyValue::Empty,
            DTBPropertyValue::UInt32(v) => DTBPropertyValue::UInt32(*v),
            DTBPropertyValue::UInt64(v) => DTBPropertyValue::UInt64(*v),
            DTBPropertyValue::CStr(s) => DTBPropertyValue::CStr(s.clone()),
            DTBPropertyValue::CStrList(l) => DTBPropertyValue::CStrList(clone_strings(l)),
            DTBPropertyValue::Custom(b) => DTBPropertyValue::Custom(b.clone()),
        }
    }
}

/// The big-endian number in the four bytes from `pos`.
pub fn read_be32(b: &[u8], pos: usize) -> (r: u32)
    requires
        pos + 4 <= b@.len(),
    ensures
        r == be32(b@, pos as int),
{
    (b[pos] as u32) * 0x100_0000 + (b[pos + 1] as u32) * 0x1_0000 + (b[pos + 2] as u32) * 0x100
        + (b[pos + 3] as u32)
}

/// The big-endian number in the eight bytes from `pos`.
pub fn read_be64(b: &[u8], pos: usize) -> (r: u64)
    requires
        pos + 8 <= b@.len(),
    ensures
        r == be64(b@, pos as int),
{
    let _n = b.len();
    let hi = read_be32(b, pos) as u64;
    let lo = read_be32(b, pos + 4) as u64;
    hi * 0x1_0000_0000 + lo
}

impl DTBPropertyValue {
    /// Compares two values of the same kind.
    pub fn equals(&self, other: &DTBPropertyValue) -> (r: Result<bool, ErrorNum>)
        ensures
            r == values_equal(self@, other@),
    {
        match (self, other) {
            (DTBPropertyValue::UInt32(l0), DTBPropertyValue::UInt32(r0)) => Ok(*l0 == *r0),
            (DTBPropertyValue::UInt64(l0), DTBPropertyValue::UInt64(r0)) => Ok(*l0 == *r0),
            (DTBPropertyValue::CStr(l0), DTBPropertyValue::CStr(r0)) => Ok(str_eq(
                l0.as_str(),
                r0.as_str(),
            )),
            (DTBPropertyValue::CStrList(l0), DTBPropertyValue::CStrList(r0)) => Ok(strings_eq(
                l0,
                r0,
            )),
            (DTBPropertyValue::Custom(l0), DTBPropertyValue::Custom(r0)) => Ok(bytes_eq(
                l0.as_slice(),
                r0.as_slice(),
            )),
            _ => Err(ErrorNum::EBADTYPE),
        }
    }

    /// Whether a string list holds `tgt`.
    pub fn contains(&self, tgt: &str) -> (r: Result<bool, ErrorNum>)
        ensures
            r == list_contains(self@, tgt@),
    {
        if let DTBPropertyValue::CStrList(content) = self {
            let mut i: usize = 0;
            proof {
                assert(self@ == ValueModel::CStrList(texts(content@)));
            }
            while i < content.len()
                invariant
                    self@ == ValueModel::CStrList(texts(content@)),
                    i <= content@.len(),
                    forall|j: int| 0 <= j < i ==> #[trigger] content@[j]@ != tgt@,
                decreases content@.len() - i,
            {
                if str_eq(content[i].as_str(), tgt) {
                    proof {
                        assert(texts(content@)[i as int] == tgt@);
                        assert(texts(content@).contains(tgt@));
                    }
                    return Ok(true);
                }
                i = i + 1;
            }
            proof {
                assert(!texts(content@).contains(tgt@)) by {
                    if texts(content@).contains(tgt@) {
                        let j = choose|j: int|
                            0 <= j < texts(content@).len() && texts(content@)[j] == tgt@;
                        assert(content@[j]@ == tgt@);
                    }
                }
            }
            Ok(false)
        } else {
            Err(ErrorNum::EBADTYPE)
        }
    }

    /// Decodes the bytes of the property named `name` by what that name stands for.
    pub fn from_bytes(name: String, value: Vec<u8>) -> (r: Result<Self, ErrorNum>)
        ensures
            match property_value(name@, value@) {
                Ok(m) => r matches Ok(v) && v@ == m,
                Err(e) => r == Err::<Self, ErrorNum>(e),
            },
    {
        let n = name.as_str();
        if str_eq(n, "riscv,isa") {
            Ok(Self::CStr(Self::read_cstr(value)?))
        } else if str_eq(n, "mmu-type") {
            Ok(Self::CStr(Self::read_cstr(value)?))
        } else if str_eq(n, "compatible") {
            Ok(Self::CStrList(Self::read_cstr_list(value)?))
        } else if str_eq(n, "model") {
            Ok(Self::CStr(Self::read_cstr(value)?))
        } else if str_eq(n, "device_type") {
            Ok(Self::CStr(Self::read_cstr(value)?))
        } else if str_eq(n, "phandle") {
            Ok(Self::UInt32(Self::read_u32(value)?))
        } else if str_eq(n, "status") {
            Ok(Self::CStr(Self::read_cstr(value)?))
        } else if str_eq(n, "#address-cells") {
            Ok(Self::UInt32(Self::read_u32(value)?))
        } else if str_eq(n, "#size-cells") {
            Ok(Self::UInt32(Self::read_u32(value)?))
        } else if str_eq(n, "reg") {
            Ok(Self::Custom(value))
        } else if str_eq(n, "virtual-reg") {
            Ok(Self::UInt32(Self::read_u32(value)?))
        } else if str_eq(n, "ranges") {
            Ok(Self::Custom(value))
        } else if str_eq(n, "dma-range") {
            Ok(Self::Custom(value))
        } else if str_eq(n, "interrupts") {
            Ok(Self::UInt32(Self::read_u32(value)?))
        } else if str_eq(n, "interrupt-parent") {
            Ok(Self::UInt32(Self::read_u32(value)?))
        } else if str_eq(n, "#interrupt-cells") {
            Ok(Self::UInt32(Self::read_u32(value)?))
        } else if str_eq(n, "interrupt-controller") {
            Ok(Self::Empty)
        } else if str_eq(n, "interrupts-extended") {
            Ok(Self::Custom(value))
        } else if str_eq(n, "interrupt-map-mask") {
            Ok(Self::Custom(value))
        } else if str_eq(n, "regmap") {
            Ok(Self::UInt32(Self::read_u32(value)?))
        } else if str_eq(n, "offset") {
            Ok(Self::UInt32(Self::read_u32(value)?))
        } else if str_eq(n, "value") {
            Ok(Self::UInt32(Self::read_u32(value)?))
        } else if str_eq(n, "cpu") {
            Ok(Self::UInt32(Self::read_u32(value)?))
        } else if str_eq(n, "clock-frequency") {
            if value.len() == 4 {
                Ok(Self::UInt32(Self::read_u32(value)?))
            } else if value.len() == 8 {
                Ok(Self::UInt64(Self::read_u64(value)?))
            } else {
                Err(ErrorNum::EBADDTB)
            }
        } else {
            Ok(Self::Custom(value))
        }
    }

    /// The strings that zero bytes separate in `value` (empty ones dropped).
    fn read_cstr_list(value: Vec<u8>) -> (r: Result<Vec<String>, ErrorNum>)
        ensures
            match run_texts(nul_runs(value@)) {
                Some(t) => r matches Ok(l) && texts(l@) == t,
                None => r == Err::<Vec<String>, ErrorNum>(ErrorNum::EBADCODEX),
            },
    {
        let mut runs: Vec<Vec<u8>> = Vec::new();
        let mut cur: Vec<u8> = Vec::new();
        let mut i: usize = 0;
        while i < value.len()
            invariant
                i <= value@.len(),
                Seq::new(runs@.len(), |j: int| runs@[j]@) + runs_from(value@, i as int, cur@)
                    == nul_runs(value@),
            decreases value@.len() - i,
        {
            let ghost before = Seq::new(runs@.len(), |j: int| runs@[j]@);
            if value[i] == 0 {
                if cur.len() > 0 {
                    let piece = cur;
                    cur = Vec::new();
                    runs.push(piece);
                    proof {
                        assert(Seq::new(runs@.len(), |j: int| runs@[j]@) =~= before + seq![
                            piece@,
                        ]);
                    }
                } else {
                    proof {
                        assert(seq![] + runs_from(value@, i + 1, seq![]) =~= runs_from(
                            value@,
                            i + 1,
                            seq![],
                        ));
                    }
                }
                proof {
                    assert(cur@ =~= Seq::<u8>::empty());
                }
            } else {
                cur.push(value[i]);
            }
            i = i + 1;
        }
        if cur.len() > 0 {
            let ghost before = Seq::new(runs@.len(), |j: int| runs@[j]@);
            let piece = cur;
            runs.push(piece);
            proof {
                assert(Seq::new(runs@.len(), |j: int| runs@[j]@) =~= before + seq![piece@]);
            }
        } else {
            proof {
                assert(runs_from(value@, i as int, cur@) =~= Seq::<Seq<u8>>::empty());
            }
        }
        let ghost rs = Seq::new(runs@.len(), |j: int| runs@[j]@);
        proof {
            assert(rs =~= nul_runs(value@));
        }
        let mut res: Vec<String> = Vec::new();
        let mut k: usize = 0;
        while k < runs.len()
            invariant
                k <= runs@.len(),
                rs == Seq::new(runs@.len(), |j: int| runs@[j]@),
                rs == nul_runs(value@),
                res@.len() == k,
                forall|j: int| 0 <= j < k ==> valid_utf8(#[trigger] rs[j]),
                forall|j: int| 0 <= j < k ==> #[trigger] res@[j]@ == decode_utf8(rs[j]),
            decreases runs@.len() - k,
        {
            let piece = runs[k].clone();
            proof {
                assert(piece@ =~= runs@[k as int]@);
            }
            match crate::text::string_from_utf8(piece) {
                Some(s) => {
                    res.push(s);
                },
                None => {
                    proof {
                        assert(!valid_utf8(rs[k as int]));
                        assert(run_texts(nul_runs(value@)) is None);
                    }
                    return Err(ErrorNum::EBADCODEX);
                },
            }
            k = k + 1;
        }
        proof {
            assert(texts(res@) =~= Seq::new(rs.len(), |j: int| decode_utf8(rs[j])));
        }
        Ok(res)
    }

    /// The text of `value` (a final NUL dropped).
    fn read_cstr(value: Vec<u8>) -> (r: Result<String, ErrorNum>)
        ensures
            match cstr_text(value@) {
                Some(t) => r matches Ok(s) && s@ == t,
                None => r == Err::<String, ErrorNum>(ErrorNum::EBADCODEX),
            },
    {
        match cstr_from_bytes(value) {
            Some(s) => Ok(s),
            None => Err(ErrorNum::EBADCODEX),
        }
    }

    /// The big-endian number in exactly four bytes.
    fn read_u32(value: Vec<u8>) -> (r: Result<u32, ErrorNum>)
        ensures
            value@.len() == 4 ==> r == Ok::<u32, ErrorNum>(be32(value@, 0) as u32),
            value@.len() != 4 ==> r == Err::<u32, ErrorNum>(ErrorNum::EBADDTB),
    {
        if value.len() != 4 {
            return Err(ErrorNum::EBADDTB);
        }
        Ok(read_be32(value.as_slice(), 0))
    }

    /// The big-endian number in exactly eight bytes.
    fn read_u64(value: Vec<u8>) -> (r: Result<u64, ErrorNum>)
        ensures
            value@.len() == 8 ==> r == Ok::<u64, ErrorNum>(be64(value@, 0) as u64),
            value@.len() != 8 ==> r == Err::<u64, ErrorNum>(ErrorNum::EBADDTB),
    {
        if value.len() != 8 {
            return Err(ErrorNum::EBADDTB);
        }
        Ok(read_be64(value.as_slice(), 0))
    }

    /// The number of a 32-bit value.
    pub fn get_u32(&self) -> (r: Result<u32, ErrorNum>)
        ensures
            match self@ {
                ValueModel::UInt32(v) => r == Ok::<u32, ErrorNum>(v),
                _ => r == Err::<u32, ErrorNum>(ErrorNum::EBADTYPE),
            },
    {
        match self {
            DTBPropertyValue::UInt32(val) => Ok(*val),
            _ => Err(ErrorNum::EBADTYPE),
        }
    }

    /// The number of a 64-bit value.
    pub fn get_u64(&self) -> (r: Result<u64, ErrorNum>)
        ensures
            match self@ {
                ValueModel::UInt64(v) => r == Ok::<u64, ErrorNum>(v),
                _ => r == Err::<u64, ErrorNum>(ErrorNum::EBADTYPE),
            },
    {
        match self {
            DTBPropertyValue::UInt64(val) => Ok(*val),
            _ => Err(ErrorNum::EBADTYPE),
        }
    }

    /// The text of a string value.
    pub fn get_cstr(&self) -> (r: Result<String, ErrorNum>)
        ensures
            match self@ {
                ValueModel::CStr(t) => r matches Ok(s) && s@ == t,
                _ => r == Err::<String, ErrorNum>(ErrorNum::EBADTYPE),
            },
    {
        match self {
            DTBPropertyValue::CStr(val) => Ok(val.clone()),
            _ => Err(ErrorNum::EBADTYPE),
        }
    }

    /// The bytes of a raw value.
    pub fn get_custom(&self) -> (r: Result<Vec<u8>, ErrorNum>)
        ensures
            match self@ {
                ValueModel::Custom(b) => r matches Ok(v) && v@ == b,
                _ => r == Err::<Vec<u8>, ErrorNum>(ErrorNum::EBADTYPE),
            },
    {
        match self {
            DTBPropertyValue::Custom(val) => Ok(val.clone()),
            _ => Err(ErrorNum::EBADTYPE),
        }
    }
}

} // verus!
