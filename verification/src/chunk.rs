use vstd::prelude::*;
use vstd::slice::slice_to_vec;
use vstd::std_specs::convert::TryFromSpecImpl;
use vstd::string::StringExecFns;
use vstd::utf8::{encode_utf8, valid_utf8};

use crate::checksum::checksum;
use crate::chunk_type::ChunkType;
use crate::error::Error;
use crate::text::{bytes_text, decimal, push_decimal};
use crate::wire::{decode, encode, lemma_decode_encode, split_record, write_record, ChunkView};

verus! {

/// How a chunk is shown to a reader: its length, type code, payload size and
/// checksum, one to a line, between braces.
pub open spec fn rendering(v: ChunkView) -> Seq<char> {
    "Chunk {\n  Length: "@ + decimal(v.data.len()) + "\n  Type: "@ + bytes_text(v.chunk_type)
        + "\n  Data: "@ + decimal(v.data.len()) + " bytes\n  Crc: "@ + decimal(v.crc() as nat)
        + "\n}\n"@
}

/// A payload under a type code. The length is kept beside the payload and
/// always equals the payload's length; the checksum is not kept but computed
/// whenever it is asked for.
#[derive(Debug)]
pub struct Chunk {
    length: u32,
    chunk_type: ChunkType,
    data: Vec<u8>,
}

impl View for Chunk {
    type V = ChunkView;

    closed spec fn view(&self) -> ChunkView {
        ChunkView { chunk_type: self.chunk_type@, data: self.data@ }
    }
}

impl Chunk {
    #[verifier::type_invariant]
    spec fn length_is_payload_len(self) -> bool {
        self.length as int == self.data@.len()
    }

    /// Puts a payload under a type code. The payload must fit the 32-bit
    /// length field.
    pub fn new(chunk_type: ChunkType, data: Vec<u8>) -> (chunk: Chunk)
        requires
            data@.len() <= u32::MAX,
        ensures
            chunk@ == (ChunkView { chunk_type: chunk_type@, data: data@ }),
            chunk@.well_formed(),
    {
        Chunk { length: data.len() as u32, chunk_type, data }
    }

    /// Accepts a payload under a type code if the checksum stored with it
    /// is the one computed over it, and refuses it as corrupt otherwise.
    pub fn checked(chunk_type: ChunkType, data: Vec<u8>, stored: u32, computed: u32) -> (r: Result<
        Chunk,
        Error,
    >)
        requires
            data@.len() <= u32::MAX,
        ensures
            match r {
                Ok(chunk) => {
                    &&& stored == computed
                    &&& chunk@ == (ChunkView { chunk_type: chunk_type@, data: data@ })
                    &&& chunk@.well_formed()
                },
                Err(e) => stored != computed && e == Error::IntegrityError,
            },
    {
        if stored != computed {
            return Err(Error::IntegrityError);
        }
        Ok(Chunk::new(chunk_type, data))
    }

    /// The payload's length in bytes.
    pub fn length(&self) -> (n: u32)
        ensures
            n == self@.data.len(),
            self@.well_formed(),
    {
        proof {
            use_type_invariant(self);
        }
        self.length
    }

    /// The type code.
    pub fn chunk_type(&self) -> (t: ChunkType)
        ensures
            t@ == self@.chunk_type,
    {
        self.chunk_type
    }

    /// The payload.
    pub fn data(&self) -> (d: &[u8])
        ensures
            d@ == self@.data,
    {
        self.data.as_slice()
    }

    /// The checksum over the type code followed by the payload, computed
    /// anew at each call.
    pub fn crc(&self) -> (sum: u32)
        ensures
            sum == self@.crc(),
    {
        message_crc(&self.chunk_type, self.data.as_slice())
    }

    /// The payload as text, or `EncodingError` where it is not UTF-8.
    pub fn data_as_string(&self) -> (r: Result<String, Error>)
        ensures
            match r {
                Ok(s) => valid_utf8(self@.data) && encode_utf8(s@) == self@.data,
                Err(e) => !valid_utf8(self@.data) && e == Error::EncodingError,
            },
    {
        match String::from_utf8(slice_to_vec(self.data.as_slice())) {
            Ok(s) => Ok(s),
            Err(_) => Err(Error::EncodingError),
        }
    }

    /// The chunk as text for a reader: see `rendering`.
    pub fn to_string(&self) -> (s: String)
        ensures
            s@ == rendering(self@),
    {
        proof {
            use_type_invariant(self);
        }
        let type_text = self.chunk_type.to_string();
        let mut s = String::new();
        s.append("Chunk {\n  Length: ");
        push_decimal(&mut s, self.length as u64);
        s.append("\n  Type: ");
        s.append(type_text.as_str());
        s.append("\n  Data: ");
        push_decimal(&mut s, self.data.len() as u64);
        s.append(" bytes\n  Crc: ");
        push_decimal(&mut s, self.crc() as u64);
        s.append("\n}\n");
        assert(s@ =~= rendering(self@));
        s
    }

    /// A copy of the payload alone: neither length, type code nor checksum.
    /// For the whole record see `serialize`.
    pub fn as_bytes(&self) -> (out: Vec<u8>)
        ensures
            out@ == self@.data,
    {
        slice_to_vec(self.data.as_slice())
    }

    /// The whole record: length, type code, payload, checksum.
    pub fn serialize(&self) -> (out: Vec<u8>)
        ensures
            out@ == encode(self@),
            decode(out@) == Ok::<ChunkView, Error>(self@),
    {
        proof {
            use_type_invariant(self);
            lemma_decode_encode(self@);
        }
        let sum = self.crc();
        write_record(self.chunk_type, self.data.as_slice(), sum)
    }
}

impl<'a> TryFrom<&'a [u8]> for Chunk {
    type Error = Error;

    /// Decodes the record at the start of a buffer: see `decode`.
    fn try_from(bytes: &[u8]) -> (r: Result<Chunk, Error>)
        ensures
            match r {
                Ok(chunk) => decode(bytes@) == Ok::<ChunkView, Error>(chunk@) && chunk@.well_formed(),
                Err(e) => decode(bytes@) == Err::<ChunkView, Error>(e),
            },
    {
        let (chunk_type, data, stored) = match split_record(bytes) {
            Ok(parts) => parts,
            Err(e) => {
                return Err(e);
            },
        };
        let computed = message_crc(&chunk_type, data.as_slice());
        Chunk::checked(chunk_type, data, stored, computed)
    }
}

impl<'a> TryFromSpecImpl<&'a [u8]> for Chunk {
    /// What `try_from` returns is stated by its own contract, over views.
    open spec fn obeys_try_from_spec() -> bool {
        false
    }

    open spec fn try_from_spec(bytes: &'a [u8]) -> Result<Chunk, Error> {
        arbitrary()
    }
}

/// The checksum of a payload under a type code.
fn message_crc(chunk_type: &ChunkType, data: &[u8]) -> (sum: u32)
    ensures
        sum == (ChunkView { chunk_type: chunk_type@, data: data@ }).crc(),
{
    let code = chunk_type.bytes();
    let mut message: Vec<u8> = Vec::new();
    message.extend_from_slice(code.as_slice());
    message.extend_from_slice(data);
    assert(message@ =~= chunk_type@ + data@);
    checksum(message.as_slice())
}

} // verus!
