use crate::error::SerializeError;
use crate::msgpack::wire::be;
use crate::msgpack::wire::push_be;
use crate::msgpack::wire::twos_complement;
use crate::number::narrow;
use crate::number::single_of;
use crate::number::Float;
use crate::ser::traits::Event;
use crate::ser::traits::Serializer as Sink;
use vstd::prelude::*;
use vstd::utf8::encode_utf8;

verus! {

/// The bytes of an unsigned number: the number itself up to 127, else the
/// tag of the narrowest width that holds it, and the number in that width.
pub open spec fn unsigned_bytes(value: u64) -> Seq<u8> {
    if value <= 0x7f {
        seq![value as u8]
    } else {
        widest(0xcc, value as nat)
    }
}

/// The tag of the narrowest of the widths 1, 2, 4 and 8 that holds `value`,
/// counted up from `tag`, and `value` in that width.
pub open spec fn widest(tag: u8, value: nat) -> Seq<u8> {
    if value <= 0xff {
        seq![tag] + be(value, 1)
    } else if value <= 0xffff {
        seq![(tag + 1) as u8] + be(value, 2)
    } else if value <= 0xffff_ffff {
        seq![(tag + 2) as u8] + be(value, 4)
    } else {
        seq![(tag + 3) as u8] + be(value, 8)
    }
}

/// The bytes of a signed number: one byte from -32 to 127, else the tag of
/// the narrowest width that holds it, and its two's complement in that
/// width.
pub open spec fn signed_bytes(value: i64) -> Seq<u8> {
    if -32 <= value <= 127 {
        be(twos_complement(value as int, 1), 1)
    } else if -0x80 <= value <= 0x7f {
        seq![0xd0u8] + be(twos_complement(value as int, 1), 1)
    } else if -0x8000 <= value <= 0x7fff {
        seq![0xd1u8] + be(twos_complement(value as int, 2), 2)
    } else if -0x8000_0000 <= value <= 0x7fff_ffff {
        seq![0xd2u8] + be(twos_complement(value as int, 4), 4)
    } else {
        seq![0xd3u8] + be(twos_complement(value as int, 8), 8)
    }
}

/// The bytes of a floating-point number, which the format carries as a bit
/// pattern: in single precision where that holds the number exactly, in
/// double precision where it does not. It has no form for a decimal
/// literal.
pub open spec fn float_bytes(value: Float) -> Option<Seq<u8>> {
    match value {
        Float::Single(bits) => Some(seq![0xcau8] + be(bits as nat, 4)),
        Float::Double(bits) => match single_of(bits) {
            Some(single) => Some(seq![0xcau8] + be(single as nat, 4)),
            None => Some(seq![0xcbu8] + be(bits as nat, 8)),
        },
        Float::Decimal { .. } => None,
    }
}

/// The bytes of a string: its length in UTF-8 bytes, then those bytes. The
/// format has no form for a length beyond 32 bits.
pub open spec fn text_bytes(text: Seq<char>) -> Option<Seq<u8>> {
    let bytes = encode_utf8(text);
    if bytes.len() < 32 {
        Some(seq![(0xa0 + bytes.len()) as u8] + bytes)
    } else if bytes.len() <= 0xffff_ffff {
        Some(widest(0xd9, bytes.len()) + bytes)
    } else {
        None
    }
}

/// The bytes that open an aggregate of `len` parts: up to 15 the count is
/// part of the tag that starts at `short`, else it follows the tag `wide` in
/// two bytes or the tag after it in four.
pub open spec fn count_bytes(short: u8, wide: u8, len: nat) -> Option<Seq<u8>> {
    if len < 16 {
        Some(seq![(short + len) as u8])
    } else if len <= 0xffff {
        Some(seq![wide] + be(len, 2))
    } else if len <= 0xffff_ffff {
        Some(seq![(wide + 1) as u8] + be(len, 4))
    } else {
        None
    }
}

/// The bytes that one call adds to the output, or `None` where the format
/// has no form for it. A record's member is written as its number and its
/// value, an enum's variant as its number; names are never written, and
/// nothing marks the end of an aggregate, a member or an element.
pub open spec fn encoded(event: Event) -> Option<Seq<u8>> {
    match event {
        Event::Null => Some(seq![0xc0u8]),
        Event::Bool(value) => Some(
            seq![if value {
                0xc3u8
            } else {
                0xc2u8
            }],
        ),
        Event::Signed(value) => Some(signed_bytes(value)),
        Event::Unsigned(value) => Some(unsigned_bytes(value)),
        Event::Float(value) => float_bytes(value),
        Event::Str(text) => text_bytes(text),
        Event::Enum(id, _) => Some(unsigned_bytes(id as u64)),
        Event::StartStruct(len) => count_bytes(0x80, 0xde, len as nat),
        Event::StartStructField(id, _) => Some(unsigned_bytes(id as u64)),
        Event::StartSeq(len) => count_bytes(0x90, 0xdc, len as nat),
        Event::EndStructField | Event::EndStruct | Event::StartSeqElmt | Event::EndSeqElmt
        | Event::EndSeq => Some(Seq::empty()),
    }
}

/// The sink of the binary format. It collects the bytes of what is written
/// into it.
pub struct Serializer {
    pub buffer: Vec<u8>,
}

impl Serializer {
    /// A sink that holds no bytes yet.
    pub fn new() -> (serializer: Self)
        ensures
            serializer.buffer@ == Seq::<u8>::empty(),
    {
        Serializer { buffer: Vec::new() }
    }

    /// Writes the tag of the narrowest of the widths 1, 2, 4 and 8 that
    /// holds `value`, counted up from `discriminant`, and `value` in that
    /// width.
    fn write_unsigned_8_to_64(&mut self, discriminant: u8, value: u64)
        requires
            discriminant <= 0xfc,
        ensures
            final(self).buffer@ == old(self).buffer@ + widest(discriminant, value as nat),
    {
        if value <= 0xff {
            self.buffer.push(discriminant);
            push_be(&mut self.buffer, value, 1);
        } else if value <= 0xffff {
            self.buffer.push(discriminant + 1);
            push_be(&mut self.buffer, value, 2);
        } else if value <= 0xffff_ffff {
            self.buffer.push(discriminant + 2);
            push_be(&mut self.buffer, value, 4);
        } else {
            self.buffer.push(discriminant + 3);
            push_be(&mut self.buffer, value, 8);
        }
        assert(self.buffer@ =~= old(self).buffer@ + widest(discriminant, value as nat));
    }

    /// Writes the tag `discriminant` and `value` in two bytes, or the tag
    /// after it and `value` in four. A value beyond 32 bits is refused.
    fn write_unsigned_16_to_32(&mut self, discriminant: u8, value: u64) -> (verdict: Result<
        (),
        SerializeError,
    >)
        requires
            discriminant <= 0xfe,
        ensures
            verdict is Ok <==> value <= 0xffff_ffff,
            verdict is Ok ==> final(self).buffer@ == old(self).buffer@ + if value <= 0xffff {
                seq![discriminant] + be(value as nat, 2)
            } else {
                seq![(discriminant + 1) as u8] + be(value as nat, 4)
            },
            verdict is Err ==> final(self).buffer@ == old(self).buffer@,
    {
        if value <= 0xffff {
            self.buffer.push(discriminant);
            push_be(&mut self.buffer, value, 2);
            assert(self.buffer@ =~= old(self).buffer@ + (seq![discriminant] + be(value as nat, 2)));
            Ok(())
        } else if value <= 0xffff_ffff {
            self.buffer.push(discriminant + 1);
            push_be(&mut self.buffer, value, 4);
            assert(self.buffer@ =~= old(self).buffer@ + (seq![(discriminant + 1) as u8] + be(
                value as nat,
                4,
            )));
            Ok(())
        } else {
            Err(SerializeError)
        }
    }

    /// Writes the bytes that open an aggregate of `len` parts.
    fn write_count(&mut self, short: u8, wide: u8, len: usize) -> (verdict: Result<
        (),
        SerializeError,
    >)
        requires
            short <= 0xf0,
            wide <= 0xfe,
        ensures
            match count_bytes(short, wide, len as nat) {
                Some(bytes) => verdict is Ok && final(self).buffer@ == old(self).buffer@ + bytes,
                None => verdict is Err && final(self).buffer@ == old(self).buffer@,
            },
    {
        if len < 16 {
            self.buffer.push(short + len as u8);
            assert(self.buffer@ =~= old(self).buffer@ + seq![(short + len) as u8]);
            Ok(())
        } else {
            self.write_unsigned_16_to_32(wide, len as u64)
        }
    }
}

impl Sink for Serializer {
    type State = Seq<u8>;

    open spec fn state(&self) -> Seq<u8> {
        self.buffer@
    }

    open spec fn emit(state: Seq<u8>, event: Event) -> Result<Seq<u8>, SerializeError> {
        match encoded(event) {
            Some(bytes) => Ok(state + bytes),
            None => Err(SerializeError),
        }
    }

    fn serialize_null(&mut self) -> (verdict: Result<(), SerializeError>) {
        self.buffer.push(0xc0);
        assert(self.buffer@ =~= old(self).buffer@ + seq![0xc0u8]);
        Ok(())
    }

    fn serialize_bool(&mut self, value: bool) -> (verdict: Result<(), SerializeError>) {
        if value {
            self.buffer.push(0xc3);
        } else {
            self.buffer.push(0xc2);
        }
        assert(self.buffer@ =~= old(self).buffer@ + encoded(Event::Bool(value)).unwrap());
        Ok(())
    }

    fn serialize_signed(&mut self, value: i64) -> (verdict: Result<(), SerializeError>) {
        proof {
            crate::msgpack::wire::lemma_spans();
        }
        if value >= -32 && value <= 127 {
            let raw: u64 = if value < 0 {
                (value + 0x100) as u64
            } else {
                value as u64
            };
            push_be(&mut self.buffer, raw, 1);
        } else if value >= -0x80 && value <= 0x7f {
            self.buffer.push(0xd0);
            push_be(&mut self.buffer, (value + 0x100) as u64, 1);
        } else if value >= -0x8000 && value <= 0x7fff {
            let raw: u64 = if value < 0 {
                (value + 0x1_0000) as u64
            } else {
                value as u64
            };
            self.buffer.push(0xd1);
            push_be(&mut self.buffer, raw, 2);
        } else if value >= -0x8000_0000 && value <= 0x7fff_ffff {
            let raw: u64 = if value < 0 {
                (value + 0x1_0000_0000) as u64
            } else {
                value as u64
            };
            self.buffer.push(0xd2);
            push_be(&mut self.buffer, raw, 4);
        } else {
            let raw: u64 = if value < 0 {
                (value as i128 + 0x1_0000_0000_0000_0000) as u64
            } else {
                value as u64
            };
            self.buffer.push(0xd3);
            push_be(&mut self.buffer, raw, 8);
        }
        assert(self.buffer@ =~= old(self).buffer@ + signed_bytes(value));
        Ok(())
    }

    fn serialize_unsigned(&mut self, value: u64) -> (verdict: Result<(), SerializeError>) {
        if value <= 127 {
            self.buffer.push(value as u8);
            assert(self.buffer@ =~= old(self).buffer@ + seq![value as u8]);
        } else {
            self.write_unsigned_8_to_64(0xcc, value);
        }
        Ok(())
    }

    fn serialize_float(&mut self, value: Float) -> (verdict: Result<(), SerializeError>) {
        match value {
            Float::Single(bits) => {
                self.buffer.push(0xca);
                push_be(&mut self.buffer, bits as u64, 4);
                assert(self.buffer@ =~= old(self).buffer@ + (seq![0xcau8] + be(bits as nat, 4)));
                Ok(())
            },
            Float::Double(bits) => {
                match narrow(bits) {
                    Some(single) => {
                        self.buffer.push(0xca);
                        push_be(&mut self.buffer, single as u64, 4);
                        assert(self.buffer@ =~= old(self).buffer@ + (seq![0xcau8] + be(
                            single as nat,
                            4,
                        )));
                    },
                    None => {
                        self.buffer.push(0xcb);
                        push_be(&mut self.buffer, bits, 8);
                        assert(self.buffer@ =~= old(self).buffer@ + (seq![0xcbu8] + be(
                            bits as nat,
                            8,
                        )));
                    },
                }
                Ok(())
            },
            Float::Decimal { .. } => Err(SerializeError),
        }
    }

    fn serialize_str(&mut self, value: &str) -> (verdict: Result<(), SerializeError>) {
        let bytes = value.as_bytes();
        let len = bytes.len();
        if len > 0xffff_ffff {
            return Err(SerializeError);
        } else if len < 32 {
            self.buffer.push(0xa0 + len as u8);
        } else {
            self.write_unsigned_8_to_64(0xd9, len as u64);
        }
        let ghost header = self.buffer@;
        let mut index: usize = 0;
        while index < len
            invariant
                index <= len == bytes@.len(),
                self.buffer@ == header + bytes@.take(index as int),
            decreases len - index,
        {
            self.buffer.push(bytes[index]);
            index = index + 1;
            assert(self.buffer@ =~= header + bytes@.take(index as int));
        }
        assert(bytes@.take(len as int) =~= bytes@);
        assert(self.buffer@ =~= old(self).buffer@ + text_bytes(value@).unwrap());
        Ok(())
    }

    fn serialize_enum(&mut self, value: u32, name: &'static str) -> (verdict: Result<
        (),
        SerializeError,
    >) {
        self.serialize_unsigned(value as u64)
    }

    fn start_struct(&mut self, len: usize) -> (verdict: Result<(), SerializeError>) {
        self.write_count(0x80, 0xde, len)
    }

    fn start_struct_field(&mut self, field_id: u32, field_name: &'static str) -> (verdict:
        Result<(), SerializeError>) {
        self.serialize_unsigned(field_id as u64)
    }

    fn end_struct_field(&mut self) -> (verdict: Result<(), SerializeError>) {
        assert(self.buffer@ =~= old(self).buffer@ + Seq::<u8>::empty());
        Ok(())
    }

    fn end_struct(&mut self) -> (verdict: Result<(), SerializeError>) {
        assert(self.buffer@ =~= old(self).buffer@ + Seq::<u8>::empty());
        Ok(())
    }

    fn start_seq(&mut self, len: usize) -> (verdict: Result<(), SerializeError>) {
        self.write_count(0x90, 0xdc, len)
    }

    fn start_seq_elmt(&mut self) -> (verdict: Result<(), SerializeError>) {
        assert(self.buffer@ =~= old(self).buffer@ + Seq::<u8>::empty());
        Ok(())
    }

    fn end_seq_elmt(&mut self) -> (verdict: Result<(), SerializeError>) {
        assert(self.buffer@ =~= old(self).buffer@ + Seq::<u8>::empty());
        Ok(())
    }

    fn end_seq(&mut self) -> (verdict: Result<(), SerializeError>) {
        assert(self.buffer@ =~= old(self).buffer@ + Seq::<u8>::empty());
        Ok(())
    }
}

} // verus!
