use vstd::prelude::*;
use crate::errors::Error;

verus! {

/// Number of key slots held by a `KeyMaterial` value: slot 0 is the
/// encryption key, slot 1 the authentication key.
pub const KEY_COUNT: usize = 2;

/// Length in bytes of each key slot.
pub const KEY_LENGTH: usize = 16;

/// The resolved set of raw symmetric keys: `KEY_COUNT` slots of
/// `KEY_LENGTH` bytes each, held as one flat buffer in fixed slot order.
/// Constructed once, immutable thereafter.
pub struct KeyMaterial {
    bytes: Vec<u8>,
}

/// What `import` accepts: a flat buffer of exactly `KEY_COUNT * KEY_LENGTH`
/// bytes is taken as it stands; anything else is rejected outright, never
/// truncated or padded.
pub open spec fn spec_import(data: Seq<u8>) -> Option<Seq<u8>> {
    if data.len() == KEY_COUNT * KEY_LENGTH {
        Some(data)
    } else {
        None
    }
}

/// What `export_bytes` produces from key material: the flat buffer itself,
/// in the same layout `import` expects.
pub open spec fn spec_export(keys: Seq<u8>) -> Seq<u8> {
    keys
}

impl View for KeyMaterial {
    type V = Seq<u8>;

    closed spec fn view(&self) -> Seq<u8> {
        self.bytes@
    }
}

impl KeyMaterial {
    /// A valid `KeyMaterial` holds exactly `KEY_COUNT * KEY_LENGTH` bytes.
    pub open spec fn wf(&self) -> bool {
        self@.len() == KEY_COUNT * KEY_LENGTH
    }

    /// Builds key material from a flat binary buffer. Succeeds exactly when
    /// the buffer holds `KEY_COUNT * KEY_LENGTH` bytes; any other length
    /// fails with `InvalidKeyfile`.
    pub fn import(data: &Vec<u8>) -> (r: Result<KeyMaterial, Error>)
        ensures
            match r {
                Ok(k) => k.wf() && spec_import(data@) == Some(k@),
                Err(e) => e == Error::InvalidKeyfile && spec_import(data@) is None,
            },
    {
        if data.len() == KEY_COUNT * KEY_LENGTH {
            Ok(KeyMaterial { bytes: data.clone() })
        } else {
            Err(Error::InvalidKeyfile)
        }
    }

    /// The flat binary representation of the keys, in the layout `import`
    /// expects, so that export and re-import round-trip.
    pub fn export_bytes(&self) -> (r: Vec<u8>)
        ensures
            r@ == spec_export(self@),
    {
        self.bytes.clone()
    }

    /// The bytes of one key slot: slot `i` is the `i`-th `KEY_LENGTH`-byte
    /// slice of the flat buffer.
    pub fn key(&self, i: usize) -> (r: Vec<u8>)
        requires
            self.wf(),
            i < KEY_COUNT,
        ensures
            r@ == self@.subrange(i * KEY_LENGTH, i * KEY_LENGTH + KEY_LENGTH),
    {
        let start = i * KEY_LENGTH;
        let mut out: Vec<u8> = Vec::new();
        let mut j: usize = 0;
        while j < KEY_LENGTH
            invariant
                self.wf(),
                i < KEY_COUNT,
                start == i * KEY_LENGTH,
                j <= KEY_LENGTH,
                out@ == self@.subrange(start as int, start + j),
            decreases KEY_LENGTH - j,
        {
            out.push(self.bytes[start + j]);
            j = j + 1;
        }
        out
    }
}

/// Round-trip law: importing a valid flat key buffer, exporting it, and
/// importing the export again yields byte-identical key material.
pub proof fn lemma_import_export_roundtrip(data: Seq<u8>)
    requires
        data.len() == KEY_COUNT * KEY_LENGTH,
    ensures
        spec_import(data) is Some,
        spec_export(spec_import(data).unwrap()) == data,
        spec_import(spec_export(spec_import(data).unwrap())) == spec_import(data),
{
}

} // verus!
