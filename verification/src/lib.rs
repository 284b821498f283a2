//! A compact binary structure codec.
//!
//! A textual format string (in the spirit of C-struct layout mini-languages)
//! is compiled into an immutable [`format::PackingDescriptor`]: an ordered
//! list of fields, each with a byte offset and length, plus a byte order.
//! The descriptor is then used to pack a sequence of dynamically typed
//! [`value::Value`]s into a byte buffer, and to unpack such a buffer back
//! into values.

pub mod codec;
pub mod format;
pub mod value;
pub mod wire;

use vstd::prelude::*;
use crate::codec::{spec_pack, spec_unpack, PackError, UnpackError};
use crate::format::{spec_compile, wf_descriptor, ByteOrder, PackingDescriptor};
use crate::value::{values_view, Value};

verus! {

/// A reusable binary codec object: the format string it was built from and
/// the descriptor compiled from it, immutable and shared across any number
/// of pack and unpack calls.
pub struct Pack {
    pub original: String,
    pub descriptor: PackingDescriptor,
}

impl Pack {
    /// The descriptor is well formed, as every compiled one is.
    pub open spec fn wf(&self) -> bool {
        wf_descriptor(self.descriptor@)
    }

    /// Constructs an instance by compiling a format string, with the host's
    /// native byte order active until the first directive. Returns `None`
    /// exactly when the compile fails.
    pub fn from(format: &str) -> (r: Option<Pack>)
        ensures
            match r {
                Some(p) => {
                    &&& p.wf()
                    &&& p.original@ == format@
                    &&& (spec_compile(format@, ByteOrder::LittleEndian) == Some(p.descriptor@)
                        || spec_compile(format@, ByteOrder::BigEndian) == Some(p.descriptor@))
                },
                None => spec_compile(format@, ByteOrder::LittleEndian) is None || spec_compile(
                    format@,
                    ByteOrder::LittleEndian,
                ).unwrap().total_size > usize::MAX,
            },
    {
        match crate::format::compile(format) {
            Ok(descriptor) => Some(Pack { original: format.to_owned(), descriptor }),
            Err(_) => None,
        }
    }

    /// Packs a sequence of dynamically typed values against the compiled
    /// descriptor. See [`codec::pack`].
    pub fn pack(&self, values: &Vec<Value>) -> (r: Result<Vec<u8>, PackError>)
        requires
            self.wf(),
        ensures
            match r {
                Ok(buf) => {
                    &&& spec_pack(self.descriptor@, values_view(values@)) == Some(buf@)
                    &&& buf@.len() == self.descriptor@.total_size
                },
                Err(e) => {
                    &&& e == PackError::WriteConversionFailure
                    &&& spec_pack(self.descriptor@, values_view(values@)) is None
                },
            },
    {
        crate::codec::pack(&self.descriptor, values)
    }

    /// Unpacks a byte buffer against the compiled descriptor. See
    /// [`codec::unpack`].
    pub fn unpack(&self, data: &Vec<u8>) -> (r: Result<Vec<Value>, UnpackError>)
        requires
            self.wf(),
        ensures
            match r {
                Ok(vals) => spec_unpack(self.descriptor@, data@) == Some(values_view(vals@)),
                Err(UnpackError::SizeMismatch) => data@.len() != self.descriptor@.total_size,
                Err(UnpackError::InvalidEncoding) => data@.len() == self.descriptor@.total_size
                    && spec_unpack(self.descriptor@, data@) is None,
            },
    {
        crate::codec::unpack(&self.descriptor, data)
    }
}

} // verus!
