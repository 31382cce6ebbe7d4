//! One WebSocket frame: its two header bytes, the optional extended length
//! and masking key, and the payload.

use crate::errors::RsError;
use crate::opcode::{code_of, opcode_of, OpCode};
use crate::primitives::random_bytes;
use crate::text::{hex_byte_text, hex_text, push_hex, push_text, string_of};
use crate::utils::ExtendedPayLoadLength;
use vstd::prelude::*;
use vstd::slice::slice_to_vec;
use vstd::std_specs::convert::TryFromSpecImpl;

verus! {

/// A frame as it is held in memory. The payload of a frame that came out of
/// `try_from` is unmasked; the payload of a frame that came out of
/// `from_data` is masked when a key is present, ready for the wire.
#[derive(Debug)]
pub struct DataFrame {
    /// Bit 7: FIN. Bits 4 to 6: reserved. Bits 0 to 3: opcode.
    pub fin_rscv_opcode: u8,
    /// Bit 7: MASK. Bits 0 to 6: length indicator.
    pub mask_payload_length: u8,
    /// Present when the indicator is 126 or 127.
    pub extended_payload_length: Option<ExtendedPayLoadLength>,
    /// Present when the MASK bit is set.
    pub masking_key: Option<[u8; 4]>,
    pub payload: Vec<u8>,
}

/// The mathematical value of a frame.
#[verifier::ext_equal]
pub struct FrameView {
    pub fin_rscv_opcode: u8,
    pub mask_payload_length: u8,
    pub extended_payload_length: Option<ExtendedPayLoadLength>,
    pub masking_key: Option<Seq<u8>>,
    pub payload: Seq<u8>,
}

/// The masking key as a sequence of its four bytes.
pub open spec fn key_view(key: Option<[u8; 4]>) -> Option<Seq<u8>> {
    match key {
        Some(k) => Some(k@),
        None => None,
    }
}

impl View for DataFrame {
    type V = FrameView;

    open spec fn view(&self) -> FrameView {
        FrameView {
            fin_rscv_opcode: self.fin_rscv_opcode,
            mask_payload_length: self.mask_payload_length,
            extended_payload_length: self.extended_payload_length,
            masking_key: key_view(self.masking_key),
            payload: self.payload@,
        }
    }
}

/// Bit 7 of a header byte: FIN in the first byte, MASK in the second.
pub open spec fn high_bit(byte: u8) -> bool {
    byte >= 128
}

/// A header byte with bit 7 set.
pub open spec fn with_high_bit(byte: u8) -> u8 {
    if byte >= 128 {
        byte
    } else {
        (byte + 128) as u8
    }
}

/// A header byte with bit 7 cleared.
pub open spec fn without_high_bit(byte: u8) -> u8 {
    (byte % 128) as u8
}

/// Bits 0 to 3 of the first header byte.
pub open spec fn opcode_bits(byte: u8) -> u8 {
    (byte % 16) as u8
}

/// Bits 0 to 6 of the second header byte.
pub open spec fn length_indicator(byte: u8) -> u8 {
    (byte % 128) as u8
}

/// The payload with byte `i` XORed with byte `i mod 4` of the key.
pub open spec fn mask_bytes(payload: Seq<u8>, key: Seq<u8>) -> Seq<u8> {
    Seq::new(payload.len(), |i: int| payload[i] ^ key[i % 4])
}

/// The payload masked with the key, or as it is where there is no key.
pub open spec fn mask_with(payload: Seq<u8>, key: Option<Seq<u8>>) -> Seq<u8> {
    match key {
        Some(k) => mask_bytes(payload, k),
        None => payload,
    }
}

/// Masking is an involution: masking twice with one key gives the payload
/// back.
pub proof fn lemma_mask_involution(payload: Seq<u8>, key: Seq<u8>)
    ensures
        mask_bytes(mask_bytes(payload, key), key) == payload,
{
    let once = mask_bytes(payload, key);
    let twice = mask_bytes(once, key);
    assert forall|i: int| 0 <= i < payload.len() implies twice[i] == payload[i] by {
        let a = payload[i];
        let b = key[i % 4];
        assert((a ^ b) ^ b == a) by (bit_vector);
    }
    assert(twice =~= payload);
}

/// The two bytes that carry a sixteen-bit length, high byte first.
pub open spec fn be16_bytes(value: u16) -> Seq<u8> {
    seq![(value / 256) as u8, (value % 256) as u8]
}

/// The sixteen-bit number that two bytes carry, high byte first.
pub open spec fn be16_value(bytes: Seq<u8>) -> nat {
    (bytes[0] as nat) * 256 + (bytes[1] as nat)
}

/// The eight bytes that carry a sixty-four-bit length, high byte first.
pub open spec fn be64_bytes(value: u64) -> Seq<u8> {
    seq![
        (value / 0x100_0000_0000_0000) as u8,
        (value / 0x1_0000_0000_0000 % 256) as u8,
        (value / 0x100_0000_0000 % 256) as u8,
        (value / 0x1_0000_0000 % 256) as u8,
        (value / 0x100_0000 % 256) as u8,
        (value / 0x1_0000 % 256) as u8,
        (value / 0x100 % 256) as u8,
        (value % 256) as u8,
    ]
}

/// The sixty-four-bit number that eight bytes carry, high byte first.
pub open spec fn be64_value(bytes: Seq<u8>) -> nat {
    (bytes[0] as nat) * 0x100_0000_0000_0000 + (bytes[1] as nat) * 0x1_0000_0000_0000
        + (bytes[2] as nat) * 0x100_0000_0000 + (bytes[3] as nat) * 0x1_0000_0000
        + (bytes[4] as nat) * 0x100_0000 + (bytes[5] as nat) * 0x1_0000
        + (bytes[6] as nat) * 0x100 + (bytes[7] as nat)
}

/// The bytes of an extended length on the wire; none where it is absent.
pub open spec fn extended_length_bytes(extended: Option<ExtendedPayLoadLength>) -> Seq<u8> {
    match extended {
        None => Seq::empty(),
        Some(ExtendedPayLoadLength::Medium(length)) => be16_bytes(length),
        Some(ExtendedPayLoadLength::Large(length)) => be64_bytes(length),
    }
}

/// The bytes of a masking key on the wire; none where it is absent.
pub open spec fn key_bytes(key: Option<Seq<u8>>) -> Seq<u8> {
    match key {
        Some(k) => k,
        None => Seq::empty(),
    }
}

/// The length indicator that announces a payload of the given length.
pub open spec fn indicator_for(length: nat) -> u8 {
    if length <= 125 {
        length as u8
    } else if length <= 65535 {
        126
    } else {
        127
    }
}

/// The extended length that announces a payload of the given length.
pub open spec fn extended_for(length: nat) -> Option<ExtendedPayLoadLength> {
    if length <= 125 {
        None
    } else if length <= 65535 {
        Some(ExtendedPayLoadLength::Medium(length as u16))
    } else {
        Some(ExtendedPayLoadLength::Large(length as u64))
    }
}

/// How many bytes of extended length follow a second header byte.
pub open spec fn extended_size(second: u8) -> nat {
    if length_indicator(second) == 126 {
        2
    } else if length_indicator(second) == 127 {
        8
    } else {
        0
    }
}

/// How many bytes of masking key follow: four where MASK is set.
pub open spec fn key_size(second: u8) -> nat {
    if high_bit(second) {
        4
    } else {
        0
    }
}

/// The extended length that a buffer declares. The buffer must hold the
/// bytes it speaks of.
pub open spec fn declared_extended(data: Seq<u8>) -> Option<ExtendedPayLoadLength> {
    if length_indicator(data[1]) == 126 {
        Some(ExtendedPayLoadLength::Medium(be16_value(data.subrange(2, 4)) as u16))
    } else if length_indicator(data[1]) == 127 {
        Some(ExtendedPayLoadLength::Large(be64_value(data.subrange(2, 10)) as u64))
    } else {
        None
    }
}

/// The payload length that a buffer declares.
pub open spec fn declared_length(data: Seq<u8>) -> nat {
    match declared_extended(data) {
        Some(extended) => extended.spec_value(),
        None => length_indicator(data[1]) as nat,
    }
}

impl FrameView {
    /// The frame as bytes on the wire: the two header bytes, the extended
    /// length, the masking key, and the payload as it is stored.
    pub open spec fn wire(self) -> Seq<u8> {
        seq![self.fin_rscv_opcode, self.mask_payload_length] + extended_length_bytes(
            self.extended_payload_length,
        ) + key_bytes(self.masking_key) + self.payload
    }

    /// The header agrees with the rest: the indicator and the extended
    /// length announce the payload's length, and a key of four bytes is
    /// present exactly when MASK is set.
    pub open spec fn consistent(self) -> bool {
        &&& length_indicator(self.mask_payload_length) == indicator_for(self.payload.len())
        &&& self.extended_payload_length == extended_for(self.payload.len())
        &&& self.masking_key is Some == high_bit(self.mask_payload_length)
        &&& self.masking_key matches Some(k) ==> k.len() == 4
    }
}

/// A frame as text, for a reader: the two header bytes, the extended length
/// or `None`, the bytes of the masking key or `None`, and the bytes of the
/// payload, each followed by a space.
pub open spec fn frame_text(frame: FrameView) -> Seq<char> {
    hex_byte_text(frame.fin_rscv_opcode) + hex_byte_text(frame.mask_payload_length) + (
    match frame.extended_payload_length {
        Some(extended) => extended.text() + " "@,
        None => "None "@,
    }) + (match frame.masking_key {
        Some(key) => hex_text(key),
        None => "None "@,
    }) + hex_text(frame.payload)
}

/// The final frame that carries a payload under an opcode: FIN set, the
/// length announced in the shortest form, and the payload masked where a key
/// is given.
pub open spec fn encoded_frame(payload: Seq<u8>, opcode: OpCode, key: Option<Seq<u8>>) -> FrameView {
    FrameView {
        fin_rscv_opcode: (128 + code_of(opcode)) as u8,
        mask_payload_length: ((if key is Some { 128int } else { 0int }) + indicator_for(payload.len())) as u8,
        extended_payload_length: extended_for(payload.len()),
        masking_key: key,
        payload: mask_with(payload, key),
    }
}

/// What a buffer decodes to. The frame starts at the buffer's first byte;
/// bytes behind the frame are not looked at. The payload is unmasked.
pub open spec fn decoded_frame(data: Seq<u8>) -> Result<FrameView, RsError> {
    if data.len() < 2 {
        Err(RsError::IncompleteData)
    } else if !high_bit(data[0]) {
        Err(RsError::FragmentationNotSupported)
    } else if opcode_bits(data[0]) > 10 {
        Err(RsError::InvalidOpCode)
    } else {
        let key_start = 2 + extended_size(data[1]);
        let payload_start = key_start + key_size(data[1]);
        if data.len() < payload_start || data.len() < payload_start + declared_length(data) {
            Err(RsError::IncompleteData)
        } else {
            let key = if high_bit(data[1]) {
                Some(data.subrange(key_start as int, payload_start as int))
            } else {
                None
            };
            Ok(
                FrameView {
                    fin_rscv_opcode: data[0],
                    mask_payload_length: data[1],
                    extended_payload_length: declared_extended(data),
                    masking_key: key,
                    payload: mask_with(
                        data.subrange(
                            payload_start as int,
                            (payload_start + declared_length(data)) as int,
                        ),
                        key,
                    ),
                },
            )
        }
    }
}

/// Two bytes written high byte first read back as the number they were
/// written from.
pub proof fn lemma_be16_roundtrip(value: u16)
    ensures
        be16_bytes(value).len() == 2,
        be16_value(be16_bytes(value)) == value,
{
}

/// Eight bytes written high byte first read back as the number they were
/// written from.
pub proof fn lemma_be64_roundtrip(value: u64)
    ensures
        be64_bytes(value).len() == 8,
        be64_value(be64_bytes(value)) == value,
{
    let v = value as int;
    let q1 = v / 0x100;
    let q2 = v / 0x1_0000;
    let q3 = v / 0x100_0000;
    let q4 = v / 0x1_0000_0000;
    let q5 = v / 0x100_0000_0000;
    let q6 = v / 0x1_0000_0000_0000;
    let q7 = v / 0x100_0000_0000_0000;
    assert(q2 == q1 / 0x100);
    assert(q3 == q2 / 0x100);
    assert(q4 == q3 / 0x100);
    assert(q5 == q4 / 0x100);
    assert(q6 == q5 / 0x100);
    assert(q7 == q6 / 0x100);
    assert(v == q1 * 0x100 + v % 256);
    assert(q1 == q2 * 0x100 + q1 % 256);
    assert(q2 == q3 * 0x100 + q2 % 256);
    assert(q3 == q4 * 0x100 + q3 % 256);
    assert(q4 == q5 * 0x100 + q4 % 256);
    assert(q5 == q6 * 0x100 + q5 % 256);
    assert(q6 == q7 * 0x100 + q6 % 256);
    assert(q7 < 256);
}

/// Every encoded frame is consistent.
pub proof fn lemma_encoded_frame_consistent(payload: Seq<u8>, opcode: OpCode, key: Option<Seq<u8>>)
    requires
        payload.len() <= u64::MAX,
        key matches Some(k) ==> k.len() == 4,
    ensures
        encoded_frame(payload, opcode, key).consistent(),
        encoded_frame(payload, opcode, key).payload.len() == payload.len(),
{
}

/// Round trip: the wire bytes of an encoded frame, whatever follows them in
/// the buffer, decode to a frame with the same header bytes, extended
/// length and key, whose payload is the payload that was encoded. This holds
/// for every payload that a buffer can hold, every opcode that can be sent,
/// and with or without a masking key.
pub proof fn lemma_encode_decode_roundtrip(
    payload: Seq<u8>,
    opcode: OpCode,
    key: Option<Seq<u8>>,
    rest: Seq<u8>,
)
    requires
        opcode.spec_is_valid(),
        payload.len() <= u64::MAX,
        key matches Some(k) ==> k.len() == 4,
    ensures
        decoded_frame(encoded_frame(payload, opcode, key).wire() + rest) == Ok::<
            FrameView,
            RsError,
        >(FrameView { payload: payload, ..encoded_frame(payload, opcode, key) }),
{
    let frame = encoded_frame(payload, opcode, key);
    let data = frame.wire() + rest;
    let extended = extended_length_bytes(frame.extended_payload_length);
    let key_start = 2 + extended_size(data[1]);
    let payload_start = key_start + key_size(data[1]);
    let length = payload.len();
    assert(data[0] == frame.fin_rscv_opcode);
    assert(data[1] == frame.mask_payload_length);
    assert(length_indicator(data[1]) == indicator_for(length));
    assert(high_bit(data[1]) == (key is Some));
    if length <= 125 {
        assert(extended.len() == 0);
    } else if length <= 65535 {
        lemma_be16_roundtrip(length as u16);
        assert(data.subrange(2, 4) =~= be16_bytes(length as u16));
    } else {
        lemma_be64_roundtrip(length as u64);
        assert(data.subrange(2, 10) =~= be64_bytes(length as u64));
    }
    assert(extended.len() == extended_size(data[1]));
    assert(declared_extended(data) == frame.extended_payload_length);
    assert(declared_length(data) == length);
    assert(key_bytes(key).len() == key_size(data[1]));
    assert(data.len() == payload_start + length + rest.len());
    assert(data.subrange(payload_start as int, (payload_start + length) as int) =~= frame.payload);
    match key {
        Some(k) => {
            assert(data.subrange(key_start as int, payload_start as int) =~= k);
            lemma_mask_involution(payload, k);
        },
        None => {},
    }
    assert(decoded_frame(data)->Ok_0 =~= (FrameView { payload: payload, ..frame }));
}

impl DataFrame {
    /// Whether FIN is set.
    pub fn is_final_fragment(&self) -> (fin: bool)
        ensures
            fin == high_bit(self.fin_rscv_opcode),
    {
        let byte = self.fin_rscv_opcode;
        assert((((byte >> 7) & 1) != 0) == (byte >= 128)) by (bit_vector);
        ((byte >> 7) & 1) != 0
    }

    /// Sets FIN and leaves the other bits.
    pub fn set_final_fragment(&mut self)
        ensures
            *final(self) == (DataFrame { fin_rscv_opcode: with_high_bit(old(self).fin_rscv_opcode), ..*old(self) }),
    {
        let byte = self.fin_rscv_opcode;
        assert(byte | 0x80 == if byte >= 128 { byte } else { (byte + 128) as u8 }) by (bit_vector);
        self.fin_rscv_opcode = byte | 0b10000000;
    }

    /// Clears FIN and leaves the other bits.
    pub fn unset_final_fragment(&mut self)
        ensures
            *final(self) == (DataFrame { fin_rscv_opcode: without_high_bit(old(self).fin_rscv_opcode), ..*old(self) }),
    {
        let byte = self.fin_rscv_opcode;
        assert(byte & 0x7f == byte % 128) by (bit_vector);
        self.fin_rscv_opcode = byte & 0b01111111;
    }

    /// Whether MASK is set.
    pub fn is_masked(&self) -> (masked: bool)
        ensures
            masked == high_bit(self.mask_payload_length),
    {
        let byte = self.mask_payload_length;
        assert((((byte >> 7) & 1) != 0) == (byte >= 128)) by (bit_vector);
        ((byte >> 7) & 1) != 0
    }

    /// Sets MASK and leaves the length indicator.
    pub fn set_masked(&mut self)
        ensures
            *final(self) == (DataFrame { mask_payload_length: with_high_bit(old(self).mask_payload_length), ..*old(self) }),
    {
        let byte = self.mask_payload_length;
        assert(byte | 0x80 == if byte >= 128 { byte } else { (byte + 128) as u8 }) by (bit_vector);
        self.mask_payload_length = byte | 0b10000000;
    }

    /// Clears MASK and leaves the length indicator.
    pub fn unset_masked(&mut self)
        ensures
            *final(self) == (DataFrame { mask_payload_length: without_high_bit(old(self).mask_payload_length), ..*old(self) }),
    {
        let byte = self.mask_payload_length;
        assert(byte & 0x7f == byte % 128) by (bit_vector);
        self.mask_payload_length = byte & 0b01111111;
    }

    /// The opcode in the low four bits of the first byte.
    pub fn get_opcode(&self) -> (op: OpCode)
        ensures
            op == opcode_of(opcode_bits(self.fin_rscv_opcode)),
    {
        let byte = self.fin_rscv_opcode;
        assert(byte & 0x0f == byte % 16) by (bit_vector);
        let opcode_bits: u8 = byte & 0b00001111;
        OpCode::from(opcode_bits)
    }

    /// Whether the frame is a control frame: the high bit of its four-bit
    /// opcode is set.
    pub fn is_control_frame(&self) -> (control: bool)
        ensures
            control == (opcode_bits(self.fin_rscv_opcode) >= 8),
    {
        let byte = self.fin_rscv_opcode;
        assert((((byte >> 3) & 1) != 0) == (byte % 16 >= 8)) by (bit_vector);
        ((byte >> 3) & 1) != 0
    }

    /// The seven-bit length indicator.
    pub fn get_payload_length(&self) -> (indicator: u8)
        ensures
            indicator == length_indicator(self.mask_payload_length),
    {
        let byte = self.mask_payload_length;
        assert(byte & 0x7f == byte % 128) by (bit_vector);
        byte & 0b01111111
    }

    /// XORs every payload byte with the key byte at its index modulo four.
    /// A frame without a key is left as it is.
    pub fn apply_mask(&mut self)
        ensures
            final(self)@ == (FrameView {
                payload: mask_with(old(self)@.payload, old(self)@.masking_key),
                ..old(self)@
            }),
    {
        if let Some(masking_key) = self.masking_key {
            let ghost before = self.payload@;
            let length = self.payload.len();
            let mut i: usize = 0;
            while i < length
                invariant
                    i <= length,
                    length == before.len(),
                    self.payload@.len() == length,
                    self.fin_rscv_opcode == old(self).fin_rscv_opcode,
                    self.mask_payload_length == old(self).mask_payload_length,
                    self.extended_payload_length == old(self).extended_payload_length,
                    self.masking_key == old(self).masking_key,
                    forall|j: int| 0 <= j < i ==> self.payload@[j] == before[j] ^ masking_key@[j % 4],
                    forall|j: int| i <= j < length ==> self.payload@[j] == before[j],
                decreases length - i,
            {
                let masked = self.payload[i] ^ masking_key[i % 4];
                self.payload.set(i, masked);
                i += 1;
            }
            assert(self.payload@ =~= mask_bytes(before, masking_key@));
        }
    }

    /// The frame as text, for a reader.
    pub fn to_string(&self) -> (text: String)
        ensures
            text@ == frame_text(self@),
    {
        let mut out: Vec<char> = Vec::new();
        let header = [self.fin_rscv_opcode, self.mask_payload_length];
        push_hex(&mut out, header.as_slice());
        proof {
            reveal_with_fuel(hex_text, 3);
            assert(header@.drop_last() =~= seq![self.fin_rscv_opcode]);
            assert(header@.drop_last().drop_last() =~= Seq::<u8>::empty());
            assert(out@ =~= hex_byte_text(self.fin_rscv_opcode) + hex_byte_text(
                self.mask_payload_length,
            ));
        }
        match &self.extended_payload_length {
            Some(extended) => {
                let text = extended.to_string();
                push_text(&mut out, text.as_str());
                push_text(&mut out, " ");
            },
            None => {
                push_text(&mut out, "None ");
            },
        }
        match &self.masking_key {
            Some(key) => {
                push_hex(&mut out, key.as_slice());
            },
            None => {
                push_text(&mut out, "None ");
            },
        }
        push_hex(&mut out, self.payload.as_slice());
        assert(out@ =~= frame_text(self@));
        string_of(out.as_slice())
    }

    /// The frame as bytes on the wire.
    pub fn to_bytes(&self) -> (bytes: Vec<u8>)
        ensures
            bytes@ == self@.wire(),
    {
        let mut bytes: Vec<u8> = Vec::new();
        bytes.push(self.fin_rscv_opcode);
        bytes.push(self.mask_payload_length);
        match self.extended_payload_length {
            None => {},
            Some(ExtendedPayLoadLength::Medium(length)) => {
                bytes.push((length / 256) as u8);
                bytes.push((length % 256) as u8);
            },
            Some(ExtendedPayLoadLength::Large(length)) => {
                bytes.push((length / 0x100_0000_0000_0000) as u8);
                bytes.push((length / 0x1_0000_0000_0000 % 256) as u8);
                bytes.push((length / 0x100_0000_0000 % 256) as u8);
                bytes.push((length / 0x1_0000_0000 % 256) as u8);
                bytes.push((length / 0x100_0000 % 256) as u8);
                bytes.push((length / 0x1_0000 % 256) as u8);
                bytes.push((length / 0x100 % 256) as u8);
                bytes.push((length % 256) as u8);
            },
        }
        assert(bytes@ =~= seq![self.fin_rscv_opcode, self.mask_payload_length]
            + extended_length_bytes(self.extended_payload_length));
        if let Some(masking_key) = self.masking_key {
            bytes.push(masking_key[0]);
            bytes.push(masking_key[1]);
            bytes.push(masking_key[2]);
            bytes.push(masking_key[3]);
        }
        let ghost head = seq![self.fin_rscv_opcode, self.mask_payload_length]
            + extended_length_bytes(self.extended_payload_length) + key_bytes(self@.masking_key);
        assert(bytes@ =~= head);
        let mut i: usize = 0;
        while i < self.payload.len()
            invariant
                i <= self.payload@.len(),
                bytes@ == head + self.payload@.take(i as int),
            decreases self.payload@.len() - i,
        {
            bytes.push(self.payload[i]);
            assert(self.payload@.take(i as int).push(self.payload@[i as int])
                =~= self.payload@.take(i + 1));
            i += 1;
        }
        assert(self.payload@.take(i as int) =~= self.payload@);
        bytes
    }

    /// The final frame that carries `data` under `opcode`, masked with
    /// `masking_key` where one is given. There is no frame for `Unknown`.
    pub fn from_data_with_key(data: &[u8], opcode: OpCode, masking_key: Option<[u8; 4]>) -> (frame:
        Option<DataFrame>)
        ensures
            match frame {
                Some(f) => opcode.spec_is_valid() && f@ == encoded_frame(
                    data@,
                    opcode,
                    key_view(masking_key),
                ) && f@.consistent(),
                None => !opcode.spec_is_valid(),
            },
    {
        if !opcode.is_valid() {
            return None;
        }
        let data_length = data.len();
        proof {
            lemma_encoded_frame_consistent(data@, opcode, key_view(masking_key));
        }
        let code = u8::from(opcode);
        assert(0x80u8 | code == 128 + code) by (bit_vector)
            requires
                code <= 10,
        ;
        let fin_rscv_opcode: u8 = 0b10000000 | code;
        let mask_bit: u8 = if masking_key.is_some() {
            0b10000000
        } else {
            0b00000000
        };
        let indicator: u8 = if data_length <= 125 {
            data_length as u8
        } else if data_length <= 65535 {
            126
        } else {
            127
        };
        let extended_payload_length = if data_length <= 125 {
            None
        } else if data_length <= 65535 {
            Some(ExtendedPayLoadLength::Medium(data_length as u16))
        } else {
            Some(ExtendedPayLoadLength::Large(data_length as u64))
        };
        assert(mask_bit | indicator == mask_bit + indicator) by (bit_vector)
            requires
                mask_bit == 0 || mask_bit == 128,
                indicator <= 127,
        ;
        let mut frame = DataFrame {
            fin_rscv_opcode,
            mask_payload_length: mask_bit | indicator,
            extended_payload_length,
            masking_key,
            payload: slice_to_vec(data),
        };
        frame.apply_mask();
        Some(frame)
    }

    /// The final frame that carries `data` under `opcode`. With `mask` set
    /// the frame gets a fresh random masking key and its payload is masked
    /// with it; which key that is cannot be known beforehand, so the frame
    /// is described in terms of the key it holds.
    pub fn from_data(data: &[u8], opcode: OpCode, mask: bool) -> (frame: Option<DataFrame>)
        ensures
            frame is Some <==> opcode.spec_is_valid(),
            frame matches Some(f) ==> {
                &&& f@.masking_key is Some <==> mask
                &&& f@ == encoded_frame(data@, opcode, f@.masking_key)
                &&& f@.consistent()
            },
    {
        if !opcode.is_valid() {
            return None;
        }
        let masking_key: Option<[u8; 4]> = if mask {
            Some(random_bytes::<4>())
        } else {
            None
        };
        Self::from_data_with_key(data, opcode, masking_key)
    }
}

impl TryFromSpecImpl<&[u8]> for DataFrame {
    /// What decoding returns is stated on `try_from` itself, over
    /// `decoded_frame`.
    open spec fn obeys_try_from_spec() -> bool {
        false
    }

    open spec fn try_from_spec(data: &[u8]) -> Result<Self, RsError> {
        arbitrary()
    }
}

impl TryFrom<&[u8]> for DataFrame {
    type Error = RsError;

    /// Decodes the frame at the start of `data` and unmasks its payload.
    fn try_from(data: &[u8]) -> (result: Result<DataFrame, RsError>)
        ensures
            match result {
                Ok(frame) => decoded_frame(data@) == Ok::<FrameView, RsError>(frame@),
                Err(error) => decoded_frame(data@) == Err::<FrameView, RsError>(error),
            },
            data@.len() < 2 ==> result == Err::<DataFrame, RsError>(RsError::IncompleteData),
            data@.len() >= 2 && !high_bit(data@[0]) ==> result == Err::<DataFrame, RsError>(
                RsError::FragmentationNotSupported,
            ),
            data@.len() >= 2 && high_bit(data@[0]) && opcode_bits(data@[0]) > 10 ==> result
                == Err::<DataFrame, RsError>(RsError::InvalidOpCode),
    {
        if data.len() < 2 {
            return Err(RsError::IncompleteData);
        }
        let fin_rscv_opcode = data[0];
        let mask_payload_length = data[1];
        assert((((fin_rscv_opcode >> 7) & 1) != 1) == !(fin_rscv_opcode >= 128)) by (bit_vector);
        assert(fin_rscv_opcode & 0x0f == fin_rscv_opcode % 16) by (bit_vector);
        assert(mask_payload_length & 0x7f == mask_payload_length % 128) by (bit_vector);
        assert(((mask_payload_length & 0x80) != 0) == (mask_payload_length >= 128))
            by (bit_vector);
        if (fin_rscv_opcode >> 7) & 1 != 1 {
            return Err(RsError::FragmentationNotSupported);
        }
        if (fin_rscv_opcode & 0b00001111) > 0xA {
            return Err(RsError::InvalidOpCode);
        }
        let payload_length_indicator: u8 = mask_payload_length & 0b01111111;
        let extended_payload_length = if payload_length_indicator == 126 {
            if data.len() < 4 {
                return Err(RsError::IncompleteData);
            }
            Some(ExtendedPayLoadLength::Medium((data[2] as u16) * 256 + (data[3] as u16)))
        } else if payload_length_indicator == 127 {
            if data.len() < 10 {
                return Err(RsError::IncompleteData);
            }
            Some(
                ExtendedPayLoadLength::Large(
                    (data[2] as u64) * 0x100_0000_0000_0000 + (data[3] as u64)
                        * 0x1_0000_0000_0000 + (data[4] as u64) * 0x100_0000_0000 + (
                    data[5] as u64) * 0x1_0000_0000 + (data[6] as u64) * 0x100_0000 + (
                    data[7] as u64) * 0x1_0000 + (data[8] as u64) * 0x100 + (data[9] as u64),
                ),
            )
        } else {
            None
        };
        let key_start: usize = match extended_payload_length {
            Some(ExtendedPayLoadLength::Medium(_)) => 4,
            Some(ExtendedPayLoadLength::Large(_)) => 10,
            None => 2,
        };
        let is_masked: bool = (mask_payload_length & 0b10000000) != 0;
        let mut payload_start = key_start;
        let masking_key = if is_masked {
            if data.len() < key_start + 4 {
                return Err(RsError::IncompleteData);
            }
            let key = [
                data[key_start],
                data[key_start + 1],
                data[key_start + 2],
                data[key_start + 3],
            ];
            payload_start = key_start + 4;
            assert(key@ =~= data@.subrange(key_start as int, payload_start as int));
            Some(key)
        } else {
            None
        };
        let payload_length: u64 = match extended_payload_length {
            Some(ExtendedPayLoadLength::Medium(length)) => length as u64,
            Some(ExtendedPayLoadLength::Large(length)) => length,
            None => payload_length_indicator as u64,
        };
        assert(extended_payload_length == declared_extended(data@));
        assert(payload_length == declared_length(data@));
        if ((data.len() - payload_start) as u64) < payload_length {
            return Err(RsError::IncompleteData);
        }
        let length = payload_length as usize;
        let mut payload: Vec<u8> = Vec::new();
        let mut i: usize = 0;
        while i < length
            invariant
                i <= length,
                payload_start + length <= data@.len(),
                payload@ == data@.subrange(payload_start as int, payload_start + i),
            decreases length - i,
        {
            payload.push(data[payload_start + i]);
            assert(data@.subrange(payload_start as int, payload_start + i).push(
                data@[payload_start + i],
            ) =~= data@.subrange(payload_start as int, payload_start + i + 1));
            i += 1;
        }
        let mut frame = DataFrame {
            fin_rscv_opcode,
            mask_payload_length,
            extended_payload_length,
            masking_key,
            payload,
        };
        frame.apply_mask();
        assert(frame@ =~= decoded_frame(data@)->Ok_0);
        Ok(frame)
    }
}

} // verus!
