use vstd::prelude::*;
use crate::decode::decode_module;
use crate::encode::{enc_module, encode_module, lemma_encoding_deterministic};
use crate::view::{module_view, spec_decode};
use crate::error::DecodeError;
use crate::model::ModuleInfo;

verus! {

/// Largest input a session accepts, in bytes.
pub const INPUT_CAPACITY: usize = 1048576;

/// A decoder session: an input buffer that the host fills, and one slot
/// holding the latest successful result. A new result replaces the old one;
/// a failed decode leaves the slot as it was.
pub struct DecoderSession {
    input: Vec<u8>,
    output: Option<Vec<u8>>,
}

/// Decoding is a function of the input: two successful decodes of the same
/// bytes retain byte-identical results.
pub proof fn lemma_decode_deterministic(input: Seq<u8>, first: Seq<u8>, second: Seq<u8>)
    requires
        spec_decode(input) is Ok,
        exists|m: ModuleInfo| #![trigger enc_module(m)] module_view(m) == spec_decode(input)->Ok_0 && first == enc_module(m),
        exists|m: ModuleInfo| #![trigger enc_module(m)] module_view(m) == spec_decode(input)->Ok_0 && second == enc_module(m),
    ensures
        first == second,
{
    let m1 = choose|m: ModuleInfo| #![trigger enc_module(m)] module_view(m) == spec_decode(input)->Ok_0 && first == enc_module(m);
    let m2 = choose|m: ModuleInfo| #![trigger enc_module(m)] module_view(m) == spec_decode(input)->Ok_0 && second == enc_module(m);
    lemma_encoding_deterministic(m1, m2);
}

impl DecoderSession {
    /// The input buffer.
    pub closed spec fn input_view(&self) -> Seq<u8> {
        self.input@
    }

    /// The retained result, if any.
    pub closed spec fn output_view(&self) -> Option<Seq<u8>> {
        match self.output {
            Some(o) => Some(o@),
            None => None,
        }
    }

    /// Creates a session with no input buffer and no result.
    pub fn new() -> (r: DecoderSession)
        ensures
            r.input_view().len() == 0,
            r.output_view() is None,
    {
        DecoderSession { input: Vec::new(), output: None }
    }

    /// Provides the input buffer for `size` bytes. Fails with
    /// `InputTooLarge`, changing nothing, when `size` is above the capacity;
    /// otherwise the buffer holds `INPUT_CAPACITY` bytes and what it held
    /// stays in place.
    pub fn acquire_input_buffer(&mut self, size: usize) -> (r: Result<(), DecodeError>)
        ensures
            r is Ok <==> size <= INPUT_CAPACITY,
            r is Err ==> r == Err::<(), DecodeError>(DecodeError::InputTooLarge),
            r is Err ==> final(self).input_view() == old(self).input_view(),
            r is Ok ==> final(self).input_view().len() == INPUT_CAPACITY,
            r is Ok && old(self).input_view().len() == INPUT_CAPACITY ==> final(self).input_view() == old(self).input_view(),
            final(self).output_view() == old(self).output_view(),
    {
        if size > INPUT_CAPACITY {
            return Err(DecodeError::InputTooLarge);
        }
        if self.input.len() != INPUT_CAPACITY {
            let mut buf: Vec<u8> = Vec::new();
            while buf.len() < INPUT_CAPACITY
                invariant
                    buf@.len() <= INPUT_CAPACITY,
                decreases INPUT_CAPACITY - buf@.len(),
            {
                buf.push(0);
            }
            self.input = buf;
        }
        Ok(())
    }

    /// The input buffer, for the host to write a module into in place.
    pub fn input_buffer(&mut self) -> (r: &mut Vec<u8>)
        ensures
            r@ == old(self).input_view(),
            final(self).input_view() == final(r)@,
            final(self).output_view() == old(self).output_view(),
    {
        &mut self.input
    }

    /// Copies `data` into the input buffer at `offset`. Fails, changing
    /// nothing, when it does not fit.
    pub fn write_input(&mut self, offset: usize, data: &[u8]) -> (r: bool)
        ensures
            r == (offset <= old(self).input_view().len() && data@.len() <= old(self).input_view().len() - offset),
            !r ==> final(self).input_view() == old(self).input_view(),
            r ==> final(self).input_view() == old(self).input_view().subrange(0, offset as int) + data@
                + old(self).input_view().subrange(offset + data@.len(), old(self).input_view().len() as int),
            final(self).output_view() == old(self).output_view(),
    {
        if offset > self.input.len() || data.len() > self.input.len() - offset {
            return false;
        }
        let mut i: usize = 0;
        while i < data.len()
            invariant
                i <= data@.len(),
                offset + data@.len() <= self.input@.len(),
                self.input@.len() == old(self).input@.len(),
                self.input@.len() <= usize::MAX,
                self.output == old(self).output,
                forall|k: int| 0 <= k < self.input@.len() ==> #[trigger] self.input@[k] == if offset <= k < offset + i {
                    data@[k - offset]
                } else {
                    old(self).input@[k]
                },
            decreases data@.len() - i,
        {
            self.input.set(offset + i, data[i]);
            i = i + 1;
        }
        proof {
            assert(self.input@ =~= old(self).input@.subrange(0, offset as int) + data@ + old(self).input@.subrange(
                offset + data@.len(),
                old(self).input@.len() as int,
            ));
        }
        true
    }

    /// Decodes the first `length` bytes of the input buffer. On success the
    /// encoded module replaces the retained result and `true` is returned;
    /// on any failure `false` is returned and the retained result stays.
    pub fn decode(&mut self, length: usize) -> (r: bool)
        ensures
            final(self).input_view() == old(self).input_view(),
            !r ==> final(self).output_view() == old(self).output_view(),
            r <==> length <= old(self).input_view().len() && spec_decode(old(self).input_view().subrange(0, length as int)) is Ok,
            r ==> exists|m: ModuleInfo| #![trigger enc_module(m)] m.wf() && module_view(m) == spec_decode(
                old(self).input_view().subrange(0, length as int),
            )->Ok_0 && final(self).output_view() == Some(enc_module(m)),
    {
        if length > self.input.len() {
            return false;
        }
        match decode_module(&self.input[0..length]) {
            Ok(m) => {
                let bytes = encode_module(&m);
                self.output = Some(bytes);
                true
            },
            Err(_) => false,
        }
    }

    /// Checks the first `length` bytes of the input buffer, keeping nothing.
    pub fn validate(&self, length: usize) -> (r: bool)
        ensures
            r <==> length <= self.input_view().len() && spec_decode(self.input_view().subrange(0, length as int)) is Ok,
    {
        if length > self.input.len() {
            return false;
        }
        crate::decode::validate(&self.input[0..length])
    }

    /// The retained result.
    pub fn output(&self) -> (r: Option<&Vec<u8>>)
        ensures
            match r {
                Some(o) => self.output_view() == Some(o@),
                None => self.output_view() is None,
            },
    {
        match &self.output {
            Some(o) => Some(o),
            None => None,
        }
    }

    /// Drops the retained result.
    pub fn release_output(&mut self)
        ensures
            final(self).output_view() is None,
            final(self).input_view() == old(self).input_view(),
    {
        self.output = None;
    }
}

} // verus!
