//! Decoder cursors: a data cursor over the message bytes, shared by every
//! sub-decoder, and a signature cursor owned per decoder.

use vstd::prelude::*;

use crate::align::{align, align_up};
use crate::error::Error;
use crate::message::Message;
use crate::primitives::{
    CODE_ARRAY, CODE_DICT_CLOSE, CODE_DICT_OPEN, CODE_SQUARE_CLOSE, CODE_SQUARE_OPEN,
    CODE_STRUCT_CLOSE, CODE_STRUCT_OPEN,
};

verus! {

/// The shared data cursor: the message bytes and the read position.
pub struct DataBuffer {
    pub data: Vec<u8>,
    pub data_ix: usize,
}

impl DataBuffer {
    /// Start reading a message's body from the beginning.
    pub fn from_message(mesg: &Message) -> (r: DataBuffer)
        ensures
            r.data@ == mesg.data@,
            r.data_ix == 0,
    {
        DataBuffer { data: vstd::slice::slice_to_vec(mesg.data.as_slice()), data_ix: 0 }
    }

    /// After the root decode there must be no data left.
    pub fn complete(self) -> (r: Result<(), Error>)
        requires
            self.data_ix <= self.data@.len(),
        ensures
            self.data_ix == self.data@.len() ==> r is Ok,
            self.data_ix < self.data@.len() ==> (r matches Err(e) && e == Error::LeftoverData(
                (self.data@.len() - self.data_ix) as usize,
            )),
    {
        let leftover_data = self.data.len() - self.data_ix;
        if leftover_data != 0 {
            return Err(Error::LeftoverData(leftover_data));
        }
        Ok(())
    }

    /// Advance the cursor to the next multiple of `alignment`; past the end
    /// of the buffer that is an error (the cursor still records the
    /// overrun position).
    pub fn align_reader(&mut self, alignment: usize) -> (r: Result<(), Error>)
        requires
            alignment >= 1,
            old(self).data_ix + alignment <= usize::MAX,
        ensures
            final(self).data@ == old(self).data@,
            final(self).data_ix == align_up(old(self).data_ix as int, alignment as int),
            old(self).data_ix <= final(self).data_ix,
            final(self).data_ix <= old(self).data@.len() ==> r is Ok,
            final(self).data_ix > old(self).data@.len() ==> (r matches Err(e) && e
                == Error::IndexOutOfBounds(final(self).data_ix)),
    {
        self.data_ix = align(self.data_ix, alignment);
        if self.data_ix > self.data.len() {
            return Err(Error::IndexOutOfBounds(self.data_ix));
        }
        Ok(())
    }

    /// Read `len` bytes.  The cursor advances in either case; reading past
    /// the end is an error.
    pub fn read(&mut self, len: usize) -> (r: Result<Vec<u8>, Error>)
        requires
            old(self).data_ix + len <= usize::MAX,
        ensures
            final(self).data@ == old(self).data@,
            final(self).data_ix == old(self).data_ix + len,
            old(self).data_ix + len <= old(self).data@.len() ==> (r matches Ok(b) && b@
                == old(self).data@.subrange(
                old(self).data_ix as int,
                old(self).data_ix + len,
            )),
            old(self).data_ix + len > old(self).data@.len() ==> (r matches Err(e) && e
                == Error::IndexOutOfBounds((old(self).data_ix + len) as usize)),
    {
        let old_ix = self.data_ix;
        let new_ix = old_ix + len;
        self.data_ix = new_ix;
        if new_ix > self.data.len() {
            return Err(Error::IndexOutOfBounds(new_ix));
        }
        let out = vstd::slice::slice_subrange(self.data.as_slice(), old_ix, new_ix);
        Ok(vstd::slice::slice_to_vec(out))
    }
}

/// Where the single complete type starting at `i` ends (exclusive), or
/// `None` when the signature's brackets do not close.  Any run of `a`
/// prefixes belongs to the type that follows.
pub open spec fn sig_scan(sig: Seq<u8>, i: int, nesting: int) -> Option<int>
    decreases sig.len() - i,
{
    if i < 0 || i >= sig.len() {
        None
    } else {
        let c = sig[i];
        if c == CODE_ARRAY {
            sig_scan(sig, i + 1, nesting)
        } else {
            let n2 = if c == CODE_STRUCT_OPEN || c == CODE_SQUARE_OPEN || c == CODE_DICT_OPEN {
                nesting + 1
            } else if c == CODE_STRUCT_CLOSE || c == CODE_SQUARE_CLOSE || c == CODE_DICT_CLOSE {
                nesting - 1
            } else {
                nesting
            };
            if n2 == 0 {
                Some(i + 1)
            } else {
                sig_scan(sig, i + 1, n2)
            }
        }
    }
}

/// The signature cursor of one decoder.
pub struct Deserializer {
    pub sig: Vec<u8>,
    pub sig_ix: usize,
}

impl Deserializer {
    /// A decoder over a message's signature.
    pub fn from_message(mesg: &Message) -> (r: Deserializer)
        ensures
            r.sig@ == mesg.signature@,
            r.sig_ix == 0,
    {
        Deserializer { sig: vstd::slice::slice_to_vec(mesg.signature.as_slice()), sig_ix: 0 }
    }

    /// A decoder over an owned signature fragment.
    pub fn from_sig(sig: Vec<u8>) -> (r: Deserializer)
        ensures
            r.sig@ == sig@,
            r.sig_ix == 0,
    {
        Deserializer { sig, sig_ix: 0 }
    }

    /// Take one complete single-type signature starting at the cursor.
    #[verifier::loop_isolation(false)]
    pub fn grab_single_sig(&mut self) -> (r: Result<Vec<u8>, Error>)
        requires
            old(self).sig_ix <= old(self).sig@.len(),
        ensures
            final(self).sig@ == old(self).sig@,
            match sig_scan(old(self).sig@, old(self).sig_ix as int, 0) {
                Some(end) => r matches Ok(s) && s@ == old(self).sig@.subrange(
                    old(self).sig_ix as int,
                    end,
                ) && final(self).sig_ix == end && old(self).sig_ix < end <= old(
                    self,
                ).sig@.len(),
                None => r matches Err(e) && e == Error::MismatchedSignatureBracketing(
                    old(self).sig_ix,
                ) && final(self).sig_ix == old(self).sig_ix,
            },
    {
        let start = self.sig_ix;
        let ghost s = self.sig@;
        let mut nesting: i128 = 0;
        let mut i: usize = start;
        let n = self.sig.len();
        while i < n
            invariant
                start <= i <= n,
                n == s.len(),
                self.sig@ == s,
                self.sig_ix == start,
                -(i as int - start as int) <= nesting as int <= i as int - start as int,
                sig_scan(s, start as int, 0) == sig_scan(s, i as int, nesting as int),
            decreases n - i,
        {
            let c = self.sig[i];
            if c == CODE_ARRAY {
                i = i + 1;
                continue ;
            }
            let n2: i128 = if c == CODE_STRUCT_OPEN || c == CODE_SQUARE_OPEN || c
                == CODE_DICT_OPEN {
                nesting + 1
            } else if c == CODE_STRUCT_CLOSE || c == CODE_SQUARE_CLOSE || c == CODE_DICT_CLOSE {
                nesting - 1
            } else {
                nesting
            };
            if n2 == 0 {
                self.sig_ix = i + 1;
                let out = vstd::slice::slice_subrange(self.sig.as_slice(), start, i + 1);
                return Ok(vstd::slice::slice_to_vec(out));
            }
            nesting = n2;
            i = i + 1;
        }
        Err(Error::MismatchedSignatureBracketing(start))
    }

    /// Look at the next complete single-type signature without consuming
    /// it.
    pub fn peek_single_sig(&mut self) -> (r: Result<Vec<u8>, Error>)
        requires
            old(self).sig_ix <= old(self).sig@.len(),
        ensures
            final(self).sig@ == old(self).sig@,
            final(self).sig_ix == old(self).sig_ix,
            match sig_scan(old(self).sig@, old(self).sig_ix as int, 0) {
                Some(end) => r matches Ok(s) && s@ == old(self).sig@.subrange(
                    old(self).sig_ix as int,
                    end,
                ) && old(self).sig_ix < end <= old(self).sig@.len(),
                None => r matches Err(e) && e == Error::MismatchedSignatureBracketing(
                    old(self).sig_ix,
                ),
            },
    {
        let start = self.sig_ix;
        let res = self.grab_single_sig();
        self.sig_ix = start;
        res
    }

    /// Consume `expected` if the signature continues with exactly it.
    #[verifier::loop_isolation(false)]
    pub fn probe_signature_bytes(&mut self, expected: &[u8]) -> (r: bool)
        requires
            old(self).sig_ix + expected@.len() <= usize::MAX,
        ensures
            final(self).sig@ == old(self).sig@,
            r == (old(self).sig_ix + expected@.len() <= old(self).sig@.len() && old(
                self,
            ).sig@.subrange(
                old(self).sig_ix as int,
                old(self).sig_ix + expected@.len(),
            ) == expected@),
            r ==> final(self).sig_ix == old(self).sig_ix + expected@.len(),
            !r ==> final(self).sig_ix == old(self).sig_ix,
    {
        let len = expected.len();
        if self.sig_ix + len > self.sig.len() {
            return false;
        }
        let ix = self.sig_ix;
        let mut j: usize = 0;
        while j < len
            invariant
                0 <= j <= len,
                len == expected@.len(),
                ix == self.sig_ix,
                ix + len <= self.sig@.len(),
                forall|k: int| 0 <= k < j ==> self.sig@[ix + k] == expected@[k],
            decreases len - j,
        {
            if self.sig[ix + j] != expected[j] {
                proof {
                    assert(self.sig@.subrange(ix as int, ix + len as int)[j as int]
                        != expected@[j as int]);
                }
                return false;
            }
            j = j + 1;
        }
        proof {
            assert(self.sig@.subrange(ix as int, ix + len as int) =~= expected@);
        }
        self.sig_ix = ix + len;
        true
    }

    /// Require the next signature byte to be `expected`.
    pub fn expect_signature_byte(&mut self, expected: u8) -> (r: Result<(), Error>)
        ensures
            final(self).sig@ == old(self).sig@,
            old(self).sig_ix >= old(self).sig@.len() ==> (r matches Err(e) && e
                == Error::SignatureExhausted) && final(self).sig_ix == old(self).sig_ix,
            old(self).sig_ix < old(self).sig@.len() ==> {
                if old(self).sig@[old(self).sig_ix as int] == expected {
                    r is Ok && final(self).sig_ix == old(self).sig_ix + 1
                } else {
                    r matches Err(e) && e == Error::SignatureError(
                        expected,
                        old(self).sig@[old(self).sig_ix as int],
                    ) && final(self).sig_ix == old(self).sig_ix
                }
            },
    {
        if self.sig_ix >= self.sig.len() {
            return Err(Error::SignatureExhausted);
        }
        let got = self.sig[self.sig_ix];
        if got != expected {
            return Err(Error::SignatureError(expected, got));
        }
        self.sig_ix = self.sig_ix + 1;
        Ok(())
    }

    /// Require the signature to continue with exactly `expected`.
    pub fn expect_signature_str(&mut self, expected: &[u8]) -> (r: Result<(), Error>)
        requires
            old(self).sig_ix + expected@.len() <= usize::MAX,
        ensures
            final(self).sig@ == old(self).sig@,
            (old(self).sig_ix + expected@.len() <= old(self).sig@.len() && old(
                self,
            ).sig@.subrange(
                old(self).sig_ix as int,
                old(self).sig_ix + expected@.len(),
            ) == expected@) ==> (r is Ok && final(self).sig_ix == old(self).sig_ix
                + expected@.len()),
            !(old(self).sig_ix + expected@.len() <= old(self).sig@.len() && old(
                self,
            ).sig@.subrange(
                old(self).sig_ix as int,
                old(self).sig_ix + expected@.len(),
            ) == expected@) ==> (r matches Err(e) && (e matches Error::SignatureErrorIx(b, ix)
                && b@ == expected@ && ix == old(self).sig_ix)) && final(self).sig_ix == old(
                self,
            ).sig_ix,
    {
        if self.probe_signature_bytes(expected) {
            Ok(())
        } else {
            Err(Error::SignatureErrorIx(vstd::slice::slice_to_vec(expected), self.sig_ix))
        }
    }
}

} // verus!
