//! Mount-manager query handling: the grow-and-retry session, and the
//! decoding of the query's reply buffer into mount-point names.

use vstd::prelude::*;

use crate::errors::Error;

verus! {

/// How many times a query is attempted before giving up.
pub const QUERY_RETRY_LIMIT: u8 = 5;

/// A little-endian 16-bit value at a byte offset.
pub open spec fn le16_at(b: Seq<u8>, off: int) -> nat {
    (b[off] + 256 * b[off + 1]) as nat
}

/// A little-endian 32-bit value at a byte offset.
pub open spec fn le32_at(b: Seq<u8>, off: int) -> nat {
    le16_at(b, off) + 65536 * le16_at(b, off + 2)
}

/// The UTF-16 code units stored little-endian at a byte offset.
pub open spec fn u16s_at(b: Seq<u8>, off: int, n: nat) -> Seq<u16> {
    Seq::new(n, |j: int| le16_at(b, off + 2 * j) as u16)
}

/// Read a little-endian 16-bit value.
pub fn read_le16(b: &Vec<u8>, off: usize) -> (r: u16)
    requires
        off + 2 <= b@.len(),
    ensures
        r == le16_at(b@, off as int),
{
    let n = b.len();
    (b[off] as u16) + 256 * (b[off + 1] as u16)
}

/// Read a little-endian 32-bit value.
pub fn read_le32(b: &Vec<u8>, off: usize) -> (r: u32)
    requires
        off + 4 <= b@.len(),
    ensures
        r == le32_at(b@, off as int),
{
    let n = b.len();
    (read_le16(b, off) as u32) + 65536 * (read_le16(b, off + 2) as u32)
}

/// Number of mount points the reply announces.
pub open spec fn mm_count(b: Seq<u8>) -> nat {
    le32_at(b, 4)
}

/// Offset field of reply entry `i`.
pub open spec fn mm_link_off(b: Seq<u8>, i: int) -> nat {
    le32_at(b, 8 + 24 * i)
}

/// Length field (in bytes) of reply entry `i`.
pub open spec fn mm_link_len(b: Seq<u8>, i: int) -> nat {
    le16_at(b, 8 + 24 * i + 4)
}

/// Entry `i` lies inside the buffer, and so does the name it points
/// to.  An offset of zero marks an absent name.
pub open spec fn mm_entry_ok(b: Seq<u8>, i: int) -> bool {
    &&& 8 + 24 * i + 24 <= b.len()
    &&& (mm_link_off(b, i) != 0 ==> mm_link_off(b, i) + mm_link_len(b, i) <= b.len()
        && mm_link_len(b, i) % 2 == 0)
}

/// The reply buffer is well formed: header present, every announced
/// entry and its name in bounds.
pub open spec fn mm_wf(b: Seq<u8>) -> bool {
    &&& b.len() >= 8
    &&& forall|i: int| 0 <= i < mm_count(b) ==> mm_entry_ok(b, i)
}

/// The names of the first `i` entries whose offset is set.
pub open spec fn mm_strings_upto(b: Seq<u8>, i: int) -> Seq<Seq<u16>>
    decreases i,
{
    if i <= 0 {
        seq![]
    } else {
        mm_strings_upto(b, i - 1) + (if mm_link_off(b, i - 1) == 0 {
            seq![]
        } else {
            seq![
                u16s_at(
                    b,
                    mm_link_off(b, i - 1) as int,
                    (mm_link_len(b, i - 1) / 2) as nat,
                ),
            ]
        })
    }
}

/// All symbolic-link names the reply carries, in order.
pub open spec fn mm_strings(b: Seq<u8>) -> Seq<Seq<u16>> {
    mm_strings_upto(b, mm_count(b) as int)
}

/// Decode a mount-manager reply into its symbolic-link names.
/// A buffer whose announced structure overruns it is rejected.
pub fn parse_mount_points(buf: &Vec<u8>) -> (r: Result<Vec<Vec<u16>>, Error>)
    ensures
        r is Ok <==> mm_wf(buf@),
        r matches Ok(v) ==> v.deep_view() == mm_strings(buf@),
        r is Err ==> r == Result::<Vec<Vec<u16>>, Error>::Err(Error::Overflow),
{
    if buf.len() < 8 {
        return Err(Error::Overflow);
    }
    let count = read_le32(buf, 4) as usize;
    proof {
        assert(count == mm_count(buf@));
    }
    let mut names: Vec<Vec<u16>> = Vec::new();
    let mut base: usize = 8;
    let mut i: usize = 0;
    proof {
        assert(names.deep_view() =~= mm_strings_upto(buf@, 0));
    }
    while i < count
        invariant
            0 <= i <= count,
            count == mm_count(buf@),
            buf@.len() >= 8,
            base == 8 + 24 * i,
            base <= buf@.len(),
            forall|j: int| 0 <= j < i ==> mm_entry_ok(buf@, j),
            names.deep_view() == mm_strings_upto(buf@, i as int),
        decreases count - i,
    {
        if buf.len() - base < 24 {
            proof {
                assert(!mm_entry_ok(buf@, i as int));
                assert(!mm_wf(buf@));
            }
            return Err(Error::Overflow);
        }
        let off = read_le32(buf, base) as usize;
        let l = read_le16(buf, base + 4) as usize;
        proof {
            assert(off == mm_link_off(buf@, i as int));
            assert(l == mm_link_len(buf@, i as int));
        }
        if off != 0 {
            if l % 2 != 0 {
                proof {
                    assert(!mm_entry_ok(buf@, i as int));
                    assert(!mm_wf(buf@));
                }
                return Err(Error::Overflow);
            }
            if off > buf.len() || l > buf.len() - off {
                proof {
                    assert(!mm_entry_ok(buf@, i as int));
                    assert(!mm_wf(buf@));
                }
                return Err(Error::Overflow);
            }
            let half: usize = l / 2;
            let mut s: Vec<u16> = Vec::new();
            let mut j: usize = 0;
            let n = buf.len();
            while j < half
                invariant
                    0 <= j <= half,
                    half == l / 2,
                    n == buf@.len(),
                    off + l <= n,
                    l % 2 == 0,
                    s@ == u16s_at(buf@, off as int, half as nat).subrange(0, j as int),
                decreases half - j,
            {
                let v = read_le16(buf, off + 2 * j);
                s.push(v);
                proof {
                    assert(s@ =~= u16s_at(buf@, off as int, half as nat).subrange(0, j + 1));
                }
                j = j + 1;
            }
            proof {
                assert(s@ =~= u16s_at(buf@, off as int, half as nat));
            }
            let ghost pre = names.deep_view();
            names.push(s);
            proof {
                assert forall|a: int| 0 <= a < names@.len() implies names.deep_view()[a]
                    == pre.push(s@)[a] by {
                    assert(names.deep_view()[a] == names@[a]@);
                }
                assert(names.deep_view() =~= pre.push(s@));
                assert(names.deep_view() =~= mm_strings_upto(buf@, i + 1));
            }
        } else {
            proof {
                assert(mm_strings_upto(buf@, i + 1) =~= names.deep_view());
            }
        }
        base = base + 24;
        i = i + 1;
    }
    proof {
        assert(mm_wf(buf@));
    }
    Ok(names)
}

/// The name a mount-device query reply announces: a byte length,
/// followed at offset 2 by that many bytes of UTF-16.
pub fn parse_mountdev_name(buf: &Vec<u8>) -> (r: Result<Vec<u16>, Error>)
    ensures
        r is Ok <==> (buf@.len() >= 2 && 2 + 2 * (le16_at(buf@, 0) / 2) <= buf@.len()),
        r matches Ok(v) ==> v@ == u16s_at(buf@, 2, (le16_at(buf@, 0) / 2) as nat),
        r is Err ==> r == Result::<Vec<u16>, Error>::Err(Error::Overflow),
{
    if buf.len() < 2 {
        return Err(Error::Overflow);
    }
    let size = read_le16(buf, 0) as usize;
    let half: usize = size / 2;
    if half > (buf.len() - 2) / 2 {
        proof {
            assert(2 + 2 * (le16_at(buf@, 0) / 2) > buf@.len());
        }
        return Err(Error::Overflow);
    }
    let mut s: Vec<u16> = Vec::new();
    let mut j: usize = 0;
    while j < half
        invariant
            0 <= j <= half,
            2 + 2 * half <= buf@.len(),
            half == le16_at(buf@, 0) / 2,
            s@ == u16s_at(buf@, 2, half as nat).subrange(0, j as int),
        decreases half - j,
    {
        let v = read_le16(buf, 2 + 2 * j);
        s.push(v);
        proof {
            assert(s@ =~= u16s_at(buf@, 2, half as nat).subrange(0, j + 1));
        }
        j = j + 1;
    }
    proof {
        assert(s@ =~= u16s_at(buf@, 2, half as nat));
    }
    Ok(s)
}

/// Well-formed UTF-16: every unit is either a scalar outside the
/// surrogate range, or a high surrogate followed immediately by a low
/// surrogate.
pub open spec fn utf16_wf(units: Seq<u16>) -> bool
    decreases units.len(),
{
    if units.len() == 0 {
        true
    } else if units[0] < 0xD800 || units[0] >= 0xE000 {
        utf16_wf(units.drop_first())
    } else if units[0] < 0xDC00 {
        &&& units.len() >= 2
        &&& 0xDC00 <= units[1] < 0xE000
        &&& utf16_wf(units.subrange(2, units.len() as int))
    } else {
        false
    }
}

/// What decoding a UTF-16 sequence yields, replacing ill-formed parts
/// with the replacement character.  The result depends on the code
/// units alone.
pub uninterp spec fn utf16_decoded(units: Seq<u16>) -> Seq<char>;

/// Relies on `String::from_utf16_lossy`: the decode depends on the
/// code units alone, and an empty input decodes to an empty string.
#[verifier::external_body]
pub fn decode_utf16_lossy(units: &Vec<u16>) -> (r: String)
    ensures
        r@ == utf16_decoded(units@),
        units@.len() == 0 ==> r@.len() == 0,
{
    String::from_utf16_lossy(units)
}

/// Relies on `String::from_utf16`: it succeeds exactly on well-formed
/// UTF-16 (no unpaired surrogates), and then yields the same decode
/// that the lossy variant does (the lossy variant only differs on
/// ill-formed input); on ill-formed input it fails.
#[verifier::external_body]
pub fn decode_utf16_strict(units: &Vec<u16>) -> (r: Result<String, Error>)
    ensures
        r is Ok <==> utf16_wf(units@),
        r is Ok ==> r->Ok_0@ == utf16_decoded(units@),
        r is Err ==> r->Err_0 == Error::DecodeUtf16Error,
{
    match String::from_utf16(units) {
        Ok(s) => Ok(s),
        Err(_) => Err(Error::DecodeUtf16Error),
    }
}

/// The decodes of a listing of UTF-16 names, in order.
pub open spec fn decoded_all(ss: Seq<Seq<u16>>) -> Seq<Seq<char>>
    decreases ss.len(),
{
    if ss.len() == 0 {
        seq![]
    } else {
        decoded_all(ss.drop_last()) + seq![utf16_decoded(ss.last())]
    }
}

/// Decode every name in a listing.
pub fn decode_names(names: &Vec<Vec<u16>>) -> (r: Vec<String>)
    ensures
        r.deep_view() == decoded_all(names.deep_view()),
{
    let mut r: Vec<String> = Vec::new();
    let mut i: usize = 0;
    proof {
        assert(names.deep_view().subrange(0, 0) =~= Seq::<Seq<u16>>::empty());
        assert(r.deep_view() =~= decoded_all(names.deep_view().subrange(0, 0)));
    }
    while i < names.len()
        invariant
            0 <= i <= names@.len(),
            names@.len() == names.deep_view().len(),
            r.deep_view() == decoded_all(names.deep_view().subrange(0, i as int)),
        decreases names@.len() - i,
    {
        let ghost pre = r.deep_view();
        let s = decode_utf16_lossy(&names[i]);
        r.push(s);
        proof {
            assert(names.deep_view()[i as int] == names@[i as int]@);
            assert(names.deep_view().subrange(0, i + 1).drop_last() =~= names.deep_view().subrange(
                0,
                i as int,
            ));
            assert(names.deep_view().subrange(0, i + 1).last() == names.deep_view()[i as int]);
            assert forall|a: int| 0 <= a < r@.len() implies r.deep_view()[a] == pre.push(s@)[a] by {
                assert(r.deep_view()[a] == r@[a]@);
            }
            assert(r.deep_view() =~= pre.push(s@));
            assert(r.deep_view() =~= decoded_all(names.deep_view().subrange(0, i + 1)));
        }
        i = i + 1;
    }
    proof {
        assert(names.deep_view().subrange(0, names.deep_view().len() as int)
            =~= names.deep_view());
    }
    r
}

/// A handle to the mount manager.  Opening and querying the device is
/// the application's part; this decodes the replies.
#[derive(Debug)]
pub struct MountMgr {}

impl MountMgr {
    /// A mount-manager decoder.
    pub fn new() -> (r: Self)
        ensures
            r == (MountMgr {  }),
    {
        MountMgr {  }
    }

    /// The mount-point names a reply buffer carries, decoded.
    pub fn query_points(&self, out_buf: &Vec<u8>) -> (r: Result<Vec<String>, Error>)
        ensures
            r is Ok <==> mm_wf(out_buf@),
            r matches Ok(v) ==> v.deep_view() == decoded_all(mm_strings(out_buf@)),
            r is Err ==> r == Result::<Vec<String>, Error>::Err(Error::Overflow),
    {
        match parse_mount_points(out_buf) {
            Ok(names) => Ok(decode_names(&names)),
            Err(e) => Err(e),
        }
    }
}

/// One grow-and-retry query session: on "more data" the output buffer
/// doubles and the query is retried, up to the retry limit.
#[derive(Debug, Clone, Copy, PartialEq, Eq, Structural)]
pub struct QuerySession {
    /// Attempts made so far.
    pub attempt: u8,
    /// Size of the output buffer to offer next.
    pub buf_size: usize,
}

impl QuerySession {
    /// A fresh session offering `initial` bytes.
    pub fn new(initial: usize) -> (r: Self)
        ensures
            r == (QuerySession { attempt: 0, buf_size: initial }),
    {
        QuerySession { attempt: 0, buf_size: initial }
    }

    /// Feed the outcome of one query attempt.  Success ends the
    /// session; "more data" doubles the buffer and asks the caller to
    /// retry, until the retry limit, after which the session fails
    /// with `TooManyRetries`, as does any call beyond the limit.
    pub fn on_result(&mut self, more_data: bool) -> (r: Result<bool, Error>)
        requires
            more_data && old(self).attempt + 1 < QUERY_RETRY_LIMIT ==> old(self).buf_size
                <= usize::MAX / 2,
        ensures
            old(self).attempt >= QUERY_RETRY_LIMIT ==> r == Result::<bool, Error>::Err(
                Error::TooManyRetries,
            ) && *final(self) == *old(self),
            old(self).attempt < QUERY_RETRY_LIMIT && !more_data ==> r == Result::<
                bool,
                Error,
            >::Ok(true) && *final(self) == (QuerySession {
                attempt: (old(self).attempt + 1) as u8,
                ..*old(self)
            }),
            old(self).attempt < QUERY_RETRY_LIMIT && more_data && old(self).attempt + 1
                < QUERY_RETRY_LIMIT ==> r == Result::<bool, Error>::Ok(false) && *final(self) == (
            QuerySession {
                attempt: (old(self).attempt + 1) as u8,
                buf_size: (2 * old(self).buf_size) as usize,
            }),
            old(self).attempt < QUERY_RETRY_LIMIT && more_data && old(self).attempt + 1
                >= QUERY_RETRY_LIMIT ==> r == Result::<bool, Error>::Err(Error::TooManyRetries),
    {
        if self.attempt >= QUERY_RETRY_LIMIT {
            return Err(Error::TooManyRetries);
        }
        self.attempt = self.attempt + 1;
        if !more_data {
            return Ok(true);
        }
        if self.attempt < QUERY_RETRY_LIMIT {
            self.buf_size = 2 * self.buf_size;
            return Ok(false);
        }
        Err(Error::TooManyRetries)
    }
}

} // verus!
