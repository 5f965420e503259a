//! Tokens of the structure block of a flattened device tree, and the list of
//! reserved memory regions.
use vstd::prelude::*;
use vstd::utf8::{valid_utf8, decode_utf8};
use crate::error::ErrorNum;
use super::dtb_value::{be32, be64, read_be32, read_be64};

verus! {

/// What a token of the structure block says.
pub enum TokenModel {
    BeginNode(Seq<char>),
    EndNode,
    Property { length: u32, offset: u32, value: Seq<u8> },
    Nop,
    End,
}

/// Marks the beginning of a node's representation, with its unit name.
#[derive(Debug)]
pub struct FDTBeginNodeToken {
    pub unit_name: String,
}

/// A property of a node: the length of its value, the offset of its name in
/// the strings block, and its value.
#[derive(Debug)]
pub struct FDTPropertyToken {
    pub length: u32,
    pub offset: u32,
    pub value: Vec<u8>,
}

/// A token of the structure block.
#[derive(Debug)]
pub enum FDTToken {
    BeginNode(FDTBeginNodeToken),
    EndNode,
    Property(FDTPropertyToken),
    Nop,
    End,
}

impl View for FDTToken {
    type V = TokenModel;

    open spec fn view(&self) -> TokenModel {
        match self {
            FDTToken::BeginNode(t) => TokenModel::BeginNode(t.unit_name@),
            FDTToken::EndNode => TokenModel::EndNode,
            FDTToken::Property(p) => TokenModel::Property {
                length: p.length,
                offset: p.offset,
                value: p.value@,
            },
            FDTToken::Nop => TokenModel::Nop,
            FDTToken::End => TokenModel::End,
        }
    }
}

/// The first zero byte of `b` at or after `from`.
pub open spec fn nul_from(b: Seq<u8>, from: int) -> Option<int>
    decreases b.len() - from,
{
    if from < 0 || from >= b.len() {
        None
    } else if b[from] == 0 {
        Some(from)
    } else {
        nul_from(b, from + 1)
    }
}

/// `x` rounded up to a multiple of four.
pub open spec fn round4(x: int) -> int {
    if x % 4 != 0 {
        x + 4 - x % 4
    } else {
        x
    }
}

/// The first position at or after `p`, stepping by four bytes, whose word is not zero.
pub open spec fn skip_zero_words(b: Seq<u8>, p: int) -> Option<int>
    decreases b.len() - p,
{
    if p < 0 || p + 4 > b.len() {
        None
    } else if be32(b, p) == 0 {
        skip_zero_words(b, p + 4)
    } else {
        Some(p)
    }
}

/// The zero-terminated text at `pos`.
pub open spec fn cstr_at(b: Seq<u8>, pos: int) -> Result<Seq<char>, ErrorNum> {
    match nul_from(b, pos) {
        None => Err(ErrorNum::EBADDTB),
        Some(z) => if valid_utf8(b.subrange(pos, z)) {
            Ok(decode_utf8(b.subrange(pos, z)))
        } else {
            Err(ErrorNum::EBADCODEX)
        },
    }
}

/// The token at `pos` and the position after it.
pub open spec fn token_at(b: Seq<u8>, pos: int) -> Result<(TokenModel, int), ErrorNum> {
    if pos < 0 || pos + 4 > b.len() {
        Err(ErrorNum::EBADDTB)
    } else {
        let t = be32(b, pos);
        let nxt = pos + 4;
        if t == 1 {
            match nul_from(b, nxt) {
                None => Err(ErrorNum::EBADDTB),
                Some(z) => {
                    let name = b.subrange(nxt, z);
                    if !valid_utf8(name) {
                        Err(ErrorNum::EBADCODEX)
                    } else {
                        match skip_zero_words(b, nxt + round4(name.len() as int)) {
                            None => Err(ErrorNum::EBADDTB),
                            Some(e) => Ok((TokenModel::BeginNode(decode_utf8(name)), e)),
                        }
                    }
                },
            }
        } else if t == 2 {
            Ok((TokenModel::EndNode, nxt))
        } else if t == 3 {
            if nxt + 8 > b.len() {
                Err(ErrorNum::EBADDTB)
            } else {
                let length = be32(b, nxt);
                if nxt + 8 + length > b.len() {
                    Err(ErrorNum::EBADDTB)
                } else {
                    Ok(
                        (
                            TokenModel::Property {
                                length: length as u32,
                                offset: be32(b, nxt + 4) as u32,
                                value: b.subrange(nxt + 8, nxt + 8 + length),
                            },
                            nxt + round4(8 + length),
                        ),
                    )
                }
            }
        } else if t == 4 {
            Ok((TokenModel::Nop, nxt))
        } else if t == 9 {
            Ok((TokenModel::End, nxt))
        } else {
            Err(ErrorNum::ENOSYS)
        }
    }
}

proof fn lemma_nul_from(b: Seq<u8>, from: int)
    ensures
        nul_from(b, from) matches Some(z) ==> from <= z < b.len() && b[z] == 0 && forall|j: int|
            from <= j < z ==> b[j] != 0,
        nul_from(b, from) is None ==> forall|j: int| 0 <= from <= j < b.len() ==> b[j] != 0,
    decreases b.len() - from,
{
    if 0 <= from < b.len() && b[from] != 0 {
        lemma_nul_from(b, from + 1);
    }
}

proof fn lemma_skip_zero_words(b: Seq<u8>, p: int)
    ensures
        skip_zero_words(b, p) matches Some(e) ==> p <= e && e + 4 <= b.len(),
    decreases b.len() - p,
{
    if 0 <= p && p + 4 <= b.len() && be32(b, p) == 0 {
        lemma_skip_zero_words(b, p + 4);
    }
}

/// A token always moves past at least its own four bytes, and ends at most
/// three bytes of padding past the end of the blob.
pub proof fn lemma_token_advances(b: Seq<u8>, pos: int)
    ensures
        token_at(b, pos) matches Ok((t, nxt)) ==> pos + 4 <= nxt <= b.len() + 3,
{
    if 0 <= pos && pos + 4 <= b.len() && be32(b, pos) == 1 {
        lemma_nul_from(b, pos + 4);
        if let Some(z) = nul_from(b, pos + 4) {
            let n = b.subrange(pos + 4, z).len() as int;
            lemma_skip_zero_words(b, pos + 4 + round4(n));
        }
    }
}

/// The position of the first zero byte at or after `from`, if there is one.
fn find_nul(b: &[u8], from: usize) -> (r: Option<usize>)
    ensures
        r matches Some(z) ==> nul_from(b@, from as int) == Some(z as int),
        r is None ==> nul_from(b@, from as int) is None,
{
    proof {
        lemma_nul_from(b@, from as int);
    }
    let mut i = from;
    while i < b.len()
        invariant
            from <= i,
            forall|j: int| from <= j < i ==> b@[j] != 0,
            nul_from(b@, from as int) == nul_from(b@, i as int),
        decreases b@.len() - i,
    {
        if b[i] == 0 {
            return Some(i);
        }
        i = i + 1;
    }
    None
}

/// The zero-terminated text at `pos`.
pub fn read_cstr_at(b: &[u8], pos: usize) -> (r: Result<String, ErrorNum>)
    ensures
        match cstr_at(b@, pos as int) {
            Ok(t) => r matches Ok(s) && s@ == t,
            Err(e) => r == Err::<String, ErrorNum>(e),
        },
{
    match find_nul(b, pos) {
        None => Err(ErrorNum::EBADDTB),
        Some(z) => {
            proof {
                lemma_nul_from(b@, pos as int);
            }
            let mut bytes: Vec<u8> = Vec::new();
            let mut i = pos;
            while i < z
                invariant
                    pos <= i <= z,
                    z < b@.len(),
                    bytes@ == b@.subrange(pos as int, i as int),
                decreases z - i,
            {
                bytes.push(b[i]);
                proof {
                    assert(b@.subrange(pos as int, i + 1) =~= b@.subrange(pos as int, i as int).push(
                        b@[i as int],
                    ));
                }
                i = i + 1;
            }
            match crate::text::string_from_utf8(bytes) {
                Some(s) => Ok(s),
                None => Err(ErrorNum::EBADCODEX),
            }
        },
    }
}

impl FDTToken {
    /// The token at `pos` and the position after it.
    pub fn read_token(b: &[u8], pos: usize) -> (r: Result<(FDTToken, usize), ErrorNum>)
        requires
            b@.len() + 16 <= usize::MAX,
        ensures
            match token_at(b@, pos as int) {
                Ok((t, nxt)) => r matches Ok((tok, n)) && tok@ == t && n == nxt,
                Err(e) => r matches Err(e2) && e2 == e,
            },
    {
        let len = b.len();
        if pos > len || len - pos < 4 {
            return Err(ErrorNum::EBADDTB);
        }
        let t = read_be32(b, pos);
        let nxt = pos + 4;
        if t == 1 {
            match find_nul(b, nxt) {
                None => Err(ErrorNum::EBADDTB),
                Some(z) => {
                    proof {
                        lemma_nul_from(b@, nxt as int);
                    }
                    let unit_name = match read_cstr_at(b, nxt) {
                        Ok(s) => s,
                        Err(e) => {
                            return Err(e);
                        },
                    };
                    let mut nlen = z - nxt;
                    if nlen % 4 != 0 {
                        nlen = nlen + 4 - (nlen % 4);
                    }
                    proof {
                        assert(token_at(b@, pos as int) == match skip_zero_words(
                            b@,
                            nxt + nlen,
                        ) {
                            None => Err(ErrorNum::EBADDTB),
                            Some(e) => Ok((TokenModel::BeginNode(unit_name@), e)),
                        });
                    }
                    loop
                        invariant
                            nxt <= len,
                            nxt + nlen <= len + 4,
                            token_at(b@, pos as int) == match skip_zero_words(b@, nxt + nlen) {
                                None => Err(ErrorNum::EBADDTB),
                                Some(e) => Ok((TokenModel::BeginNode(unit_name@), e)),
                            },
                            len == b@.len(),
                            len + 16 <= usize::MAX,
                        ensures
                            nxt + nlen + 4 <= len,
                            skip_zero_words(b@, nxt + nlen) == Some((nxt + nlen) as int),
                        decreases len + 4 - (nxt + nlen),
                    {
                        if len - nxt < nlen || len - nxt - nlen < 4 {
                            return Err(ErrorNum::EBADDTB);
                        }
                        let w = read_be32(b, nxt + nlen);
                        if w == 0 {
                            nlen = nlen + 4;
                        } else {
                            break;
                        }
                    }
                    Ok((FDTToken::BeginNode(FDTBeginNodeToken { unit_name }), nxt + nlen))
                },
            }
        } else if t == 2 {
            Ok((FDTToken::EndNode, nxt))
        } else if t == 3 {
            if len - nxt < 8 {
                return Err(ErrorNum::EBADDTB);
            }
            let length = read_be32(b, nxt);
            let offset = read_be32(b, nxt + 4);
            if ((len - nxt - 8) as u64) < (length as u64) {
                return Err(ErrorNum::EBADDTB);
            }
            let start = nxt + 8;
            let end = start + length as usize;
            let mut value: Vec<u8> = Vec::new();
            let mut i = start;
            while i < end
                invariant
                    start <= i <= end,
                    end <= b@.len(),
                    value@ == b@.subrange(start as int, i as int),
                decreases end - i,
            {
                value.push(b[i]);
                proof {
                    assert(b@.subrange(start as int, i + 1) =~= b@.subrange(start as int, i as int).push(
                        b@[i as int],
                    ));
                }
                i = i + 1;
            }
            let mut l: usize = 8 + length as usize;
            if l % 4 != 0 {
                l = l + 4 - (l % 4);
            }
            assert(value@ == b@.subrange(start as int, end as int));
            Ok((FDTToken::Property(FDTPropertyToken { length, offset, value }), nxt + l))
        } else if t == 4 {
            Ok((FDTToken::Nop, nxt))
        } else if t == 9 {
            Ok((FDTToken::End, nxt))
        } else {
            Err(ErrorNum::ENOSYS)
        }
    }
}

/// One entry of the memory reservation block: a region not to be used.
pub struct FDTReserveEntry {
    pub address: u64,
    pub size: u64,
}

/// The entries of the memory reservation block from `pos` up to the entry of
/// all zeros that ends it.
pub open spec fn reserve_entries(b: Seq<u8>, pos: int) -> Result<Seq<(u64, u64)>, ErrorNum>
    decreases b.len() - pos,
{
    if pos < 0 || pos + 16 > b.len() {
        Err(ErrorNum::EBADDTB)
    } else {
        let address = be64(b, pos) as u64;
        let size = be64(b, pos + 8) as u64;
        if address == 0 && size == 0 {
            Ok(seq![])
        } else {
            match reserve_entries(b, pos + 16) {
                Ok(rest) => Ok(seq![(address, size)] + rest),
                Err(e) => Err(e),
            }
        }
    }
}

impl FDTReserveEntry {
    /// The entries of the memory reservation block at `pos`.
    pub fn get_entries(b: &[u8], pos: usize) -> (r: Result<Vec<FDTReserveEntry>, ErrorNum>)
        requires
            b@.len() + 16 <= usize::MAX,
        ensures
            match reserve_entries(b@, pos as int) {
                Ok(es) => r matches Ok(v) && v@.len() == es.len() && forall|i: int|
                    0 <= i < es.len() ==> (#[trigger] v@[i]).address == es[i].0 && v@[i].size
                        == es[i].1,
                Err(e) => r matches Err(e2) && e2 == e,
            },
    {
        let mut res: Vec<FDTReserveEntry> = Vec::new();
        let mut iter = pos;
        let len = b.len();
        loop
            invariant
                len == b@.len(),
                len + 16 <= usize::MAX,
                iter >= pos,
                match reserve_entries(b@, pos as int) {
                    Ok(es) => match reserve_entries(b@, iter as int) {
                        Ok(rest) => {
                            &&& es.len() == res@.len() + rest.len()
                            &&& forall|i: int|
                                0 <= i < res@.len() ==> (#[trigger] res@[i]).address == es[i].0
                                    && res@[i].size == es[i].1
                            &&& forall|i: int|
                                0 <= i < rest.len() ==> es[res@.len() + i] == #[trigger] rest[i]
                        },
                        Err(_) => false,
                    },
                    Err(e) => reserve_entries(b@, iter as int) == Err::<Seq<(u64, u64)>, ErrorNum>(e),
                },
            decreases len + 16 - iter,
        {
            if iter > len || len - iter < 16 {
                return Err(ErrorNum::EBADDTB);
            }
            let entry = FDTReserveEntry { address: read_be64(b, iter), size: read_be64(b, iter + 8) };
            if entry.is_end() {
                return Ok(res);
            }
            proof {
                if let Ok(es) = reserve_entries(b@, pos as int) {
                    let rest = reserve_entries(b@, iter as int)->Ok_0;
                    let rest2 = reserve_entries(b@, iter + 16)->Ok_0;
                    assert(rest == seq![(entry.address, entry.size)] + rest2);
                    assert(rest[0] == (entry.address, entry.size));
                    assert forall|i: int| 0 <= i < rest2.len() implies es[res@.len() + 1 + i]
                        == #[trigger] rest2[i] by {
                        assert(rest[i + 1] == rest2[i]);
                    }
                }
            }
            res.push(entry);
            iter = iter + 16;
        }
    }

    /// The entry of all zeros ends the list.
    pub fn is_end(&self) -> (r: bool)
        ensures
            r == (self.address == 0 && self.size == 0),
    {
        self.address == 0 && self.size == 0
    }
}

} // verus!
