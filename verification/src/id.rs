//! Commit identifiers: 20-byte object hashes, printed as 40 hexadecimal
//! characters.

use vstd::prelude::*;

use crate::text;

verus! {

/// A commit hash as the changelog stores it: exactly 20 bytes.
#[derive(Debug, Clone, PartialEq, Eq)]
pub struct ObjectId {
    bytes: Vec<u8>,
}

/// The byte decoded from two hexadecimal digit characters.
pub open spec fn spec_hex_byte(h: char, l: char) -> u8 {
    (text::spec_hex_val(h) * 16 + text::spec_hex_val(l)) as u8
}

/// The 20 bytes decoded from a 40-character hexadecimal sequence.
pub open spec fn spec_id_of(s: Seq<char>) -> Seq<u8> {
    Seq::new(20, |i: int| spec_hex_byte(s[2 * i], s[2 * i + 1]))
}

/// The 40-character lowercase hexadecimal form of a byte sequence.
pub open spec fn spec_hex_of(b: Seq<u8>) -> Seq<char>
    decreases b.len(),
{
    if b.len() == 0 {
        Seq::empty()
    } else {
        spec_hex_of(b.drop_last()) + seq![
            text::spec_hex_char((b.last() / 16) as int),
            text::spec_hex_char((b.last() % 16) as int),
        ]
    }
}

impl ObjectId {
    /// The hash is always exactly 20 bytes.
    pub closed spec fn wf(self) -> bool {
        self.bytes@.len() == 20
    }

    pub closed spec fn view(self) -> Seq<u8> {
        self.bytes@
    }

    /// Decodes the 40 hexadecimal characters at `[i, i+40)` of `chars`,
    /// within the window ending at `end`.
    pub fn from_hex_range(chars: &Vec<char>, i: usize, end: usize) -> (r: Option<ObjectId>)
        requires
            i <= end <= chars@.len(),
        ensures
            r is Some <==> (i + 40 <= end && forall|k: int|
                i <= k < i + 40 ==> text::spec_is_hex(#[trigger] chars@[k])),
            r is Some ==> {
                &&& r->Some_0.wf()
                &&& r->Some_0.view() == spec_id_of(chars@.subrange(i as int, i + 40))
            },
    {
        if end - i < 40 {
            return None;
        }
        let ghost w = chars@.subrange(i as int, i + 40);
        let mut bytes: Vec<u8> = Vec::new();
        let mut k: usize = 0;
        while k < 20
            invariant
                k <= 20,
                i + 40 <= end <= chars@.len(),
                w == chars@.subrange(i as int, i + 40),
                bytes@.len() == k,
                forall|j: int| 0 <= j < 2 * k ==> text::spec_is_hex(#[trigger] w[j]),
                forall|j: int| 0 <= j < k ==> bytes@[j] == spec_hex_byte(
                    w[2 * j],
                    #[trigger] w[2 * j + 1],
                ),
            decreases 20 - k,
        {
            let h = chars[i + 2 * k];
            let l = chars[i + 2 * k + 1];
            proof {
                assert(w[2 * (k as int)] == chars@[i + 2 * k]);
                assert(w[2 * (k as int) + 1] == chars@[i + 2 * k + 1]);
            }
            if !(text::is_hex(h) && text::is_hex(l)) {
                proof {
                    let bad = if text::spec_is_hex(h) {
                        i + 2 * k + 1
                    } else {
                        i + 2 * k
                    };
                    assert(!text::spec_is_hex(chars@[bad]));
                }
                return None;
            }
            let b = (text::hex_val(h) * 16 + text::hex_val(l)) as u8;
            bytes.push(b);
            k += 1;
        }
        proof {
            assert(bytes@ =~= spec_id_of(w));
            assert forall|j: int| i <= j < i + 40 implies text::spec_is_hex(#[trigger] chars@[j]) by {
                assert(w[j - i] == chars@[j]);
            }
        }
        Some(ObjectId { bytes })
    }

    /// Decodes a full 40-character hexadecimal string.
    pub fn from_hex(s: &str) -> (r: Option<ObjectId>)
        ensures
            r is Some <==> (s@.len() == 40 && forall|k: int|
                0 <= k < 40 ==> text::spec_is_hex(#[trigger] s@[k])),
            r is Some ==> {
                &&& r->Some_0.wf()
                &&& r->Some_0.view() == spec_id_of(s@)
            },
    {
        let chars = text::str_to_chars(s);
        let n = chars.len();
        if n != 40 {
            return None;
        }
        let r = Self::from_hex_range(&chars, 0, n);
        proof {
            assert(chars@.subrange(0, 40) =~= s@);
        }
        r
    }

    /// A well-formed hash holds exactly 20 bytes.
    pub proof fn lemma_wf_len(self)
        requires
            self.wf(),
        ensures
            self.view().len() == 20,
    {
    }

    /// Compares two hashes byte for byte.
    pub fn eq_id(&self, other: &ObjectId) -> (r: bool)
        ensures
            r == (self.view() == other.view()),
    {
        let n = self.bytes.len();
        if n != other.bytes.len() {
            return false;
        }
        let mut k: usize = 0;
        while k < n
            invariant
                k <= n,
                n == self.bytes@.len() == other.bytes@.len(),
                forall|j: int| 0 <= j < k ==> self.bytes@[j] == other.bytes@[j],
            decreases n - k,
        {
            if self.bytes[k] != other.bytes[k] {
                return false;
            }
            k += 1;
        }
        proof {
            assert(self.bytes@ =~= other.bytes@);
        }
        true
    }

    /// Encodes the hash as 40 lowercase hexadecimal characters.
    pub fn append_hex(&self, out: &mut String)
        requires
            self.wf(),
        ensures
            final(out)@ == old(out)@ + spec_hex_of(self@),
    {
        let n = self.bytes.len();
        let mut k: usize = 0;
        while k < n
            invariant
                k <= n,
                n == self.bytes@.len(),
                out@ == old(out)@ + spec_hex_of(self.bytes@.subrange(0, k as int)),
            decreases n - k,
        {
            let b = self.bytes[k];
            out.append(text::hex_str(b / 16));
            out.append(text::hex_str(b % 16));
            k += 1;
            proof {
                let pre = self.bytes@.subrange(0, k as int);
                assert(pre.drop_last() =~= self.bytes@.subrange(0, k - 1));
                assert(out@ =~= old(out)@ + spec_hex_of(pre));
            }
        }
        proof {
            assert(self.bytes@.subrange(0, n as int) =~= self.bytes@);
        }
    }
}

/// Hexadecimal encoding and decoding are mutually inverse: decoding the
/// 40-character form of a well-formed hash gives the hash back.
pub proof fn lemma_hex_round_trip(b: Seq<u8>)
    requires
        b.len() == 20,
    ensures
        spec_hex_of(b).len() == 40,
        spec_id_of(spec_hex_of(b)) == b,
{
    lemma_hex_len(b);
    lemma_hex_of_index(b);
    assert forall|i: int| 0 <= i < 20 implies spec_id_of(spec_hex_of(b))[i] == b[i] by {
        let s = spec_hex_of(b);
        lemma_hex_char_val(b[i] / 16);
        lemma_hex_char_val(b[i] % 16);
        assert(s[2 * i] == text::spec_hex_char((b[i] / 16) as int));
        assert(s[2 * i + 1] == text::spec_hex_char((b[i] % 16) as int));
    }
    assert(spec_id_of(spec_hex_of(b)) =~= b);
}

/// The hexadecimal form is twice as long as the byte sequence.
pub proof fn lemma_hex_len(b: Seq<u8>)
    ensures
        spec_hex_of(b).len() == 2 * b.len(),
    decreases b.len(),
{
    if b.len() > 0 {
        lemma_hex_len(b.drop_last());
    }
}

proof fn lemma_hex_of_index(b: Seq<u8>)
    ensures
        forall|i: int| 0 <= i < b.len() ==> {
            &&& spec_hex_of(b)[2 * i] == text::spec_hex_char((#[trigger] b[i] / 16) as int)
            &&& spec_hex_of(b)[2 * i + 1] == text::spec_hex_char((b[i] % 16) as int)
        },
    decreases b.len(),
{
    lemma_hex_len(b);
    if b.len() > 0 {
        lemma_hex_of_index(b.drop_last());
        lemma_hex_len(b.drop_last());
        assert forall|i: int| 0 <= i < b.len() implies {
            &&& spec_hex_of(b)[2 * i] == text::spec_hex_char((#[trigger] b[i] / 16) as int)
            &&& spec_hex_of(b)[2 * i + 1] == text::spec_hex_char((b[i] % 16) as int)
        } by {
            if i < b.len() - 1 {
                assert(b.drop_last()[i] == b[i]);
            }
        }
    }
}

/// The hexadecimal character of a value below sixteen decodes to that value,
/// and is a hexadecimal digit.
proof fn lemma_hex_char_val(v: u8)
    requires
        v <= 15,
    ensures
        text::spec_is_hex(text::spec_hex_char(v as int)),
        text::spec_hex_val(text::spec_hex_char(v as int)) == v,
{
}

} // verus!
