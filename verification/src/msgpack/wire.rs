use vstd::prelude::*;

verus! {

/// The number of values that `width` bytes tell apart: 256 to the power of
/// `width`.
pub open spec fn span(width: nat) -> nat
    decreases width,
{
    if width == 0 {
        1
    } else {
        256 * span((width - 1) as nat)
    }
}

/// The big-endian form of `value` in `width` bytes: the most significant
/// byte comes first.
pub open spec fn be(value: nat, width: nat) -> Seq<u8>
    decreases width,
{
    if width == 0 {
        Seq::empty()
    } else {
        be(value / 256, (width - 1) as nat).push((value % 256) as u8)
    }
}

/// The number that bytes in big-endian order stand for.
pub open spec fn number(bytes: Seq<u8>) -> nat
    decreases bytes.len(),
{
    if bytes.len() == 0 {
        0
    } else {
        number(bytes.drop_last()) * 256 + bytes.last() as nat
    }
}

/// The number that stands for `value` in two's complement of `width` bytes.
pub open spec fn twos_complement(value: int, width: nat) -> nat {
    if value < 0 {
        (value + span(width)) as nat
    } else {
        value as nat
    }
}

/// The number that `raw` stands for in two's complement of `width` bytes.
pub open spec fn signed_of(raw: nat, width: nat) -> int {
    if 2 * raw >= span(width) {
        raw - span(width)
    } else {
        raw as int
    }
}

/// The number that the `width` bytes at `pos` stand for, where the input
/// holds that many.
pub open spec fn field(data: Seq<u8>, pos: int, width: nat) -> Option<nat> {
    if 0 <= pos && pos + width <= data.len() {
        Some(number(data.subrange(pos, pos + width)))
    } else {
        None
    }
}

/// The spans of the widths that the format uses.
pub proof fn lemma_spans()
    ensures
        span(1) == 0x100,
        span(2) == 0x1_0000,
        span(4) == 0x1_0000_0000,
        span(8) == 0x1_0000_0000_0000_0000,
{
    reveal_with_fuel(span, 9);
}

/// The big-endian form has the width that was asked for.
pub proof fn lemma_be_len(value: nat, width: nat)
    ensures
        be(value, width).len() == width,
    decreases width,
{
    if width > 0 {
        lemma_be_len(value / 256, (width - 1) as nat);
    }
}

/// A number that `width` bytes hold is read back from its big-endian form.
pub proof fn lemma_number_of_be(value: nat, width: nat)
    requires
        value < span(width),
    ensures
        number(be(value, width)) == value,
    decreases width,
{
    if width > 0 {
        let shorter = be(value / 256, (width - 1) as nat);
        assert(be(value, width).drop_last() =~= shorter);
        assert(value / 256 < span((width - 1) as nat)) by (nonlinear_arith)
            requires
                value < 256 * span((width - 1) as nat),
        ;
        lemma_number_of_be(value / 256, (width - 1) as nat);
    }
}

/// Bytes stand for a number below the span of their width.
pub proof fn lemma_number_bound(bytes: Seq<u8>)
    ensures
        number(bytes) < span(bytes.len()),
    decreases bytes.len(),
{
    if bytes.len() > 0 {
        lemma_number_bound(bytes.drop_last());
        assert(number(bytes.drop_last()) * 256 + bytes.last() < 256 * span(
            (bytes.len() - 1) as nat,
        )) by (nonlinear_arith)
            requires
                number(bytes.drop_last()) < span((bytes.len() - 1) as nat),
                bytes.last() < 256,
        ;
    }
}

/// Appends the big-endian form of `value` in `width` bytes.
pub fn push_be(buffer: &mut Vec<u8>, value: u64, width: u8)
    ensures
        final(buffer)@ == old(buffer)@ + be(value as nat, width as nat),
    decreases width,
{
    if width > 0 {
        push_be(buffer, value / 256, width - 1);
        buffer.push((value % 256) as u8);
        assert(final(buffer)@ =~= old(buffer)@ + be(value as nat, width as nat));
    } else {
        assert(buffer@ =~= old(buffer)@ + be(value as nat, 0));
    }
}

/// Reads the number that the `width` bytes at `pos` stand for.
pub fn read_be(data: &[u8], pos: usize, width: u8) -> (value: Option<u64>)
    requires
        0 < width <= 8,
    ensures
        match field(data@, pos as int, width as nat) {
            Some(number) => value == Some(number as u64) && number <= u64::MAX,
            None => value is None,
        },
{
    if pos > data.len() || data.len() - pos < width as usize {
        return None;
    }
    let mut value: u64 = 0;
    let mut read: u8 = 0;
    proof {
        assert(data@.subrange(pos as int, pos as int) =~= Seq::<u8>::empty());
    }
    while read < width
        invariant
            read <= width <= 8,
            pos + width <= data@.len() <= usize::MAX,
            value == number(data@.subrange(pos as int, pos + read)),
        decreases width - read,
    {
        proof {
            let done = data@.subrange(pos as int, pos + read);
            let more = data@.subrange(pos as int, pos + read + 1);
            assert(more.drop_last() =~= done);
            assert(more.last() == data@[pos + read]);
            lemma_number_bound(done);
            lemma_number_bound(more);
            reveal_with_fuel(span, 9);
        }
        value = value * 256 + data[pos + read as usize] as u64;
        read = read + 1;
    }
    proof {
        lemma_number_bound(data@.subrange(pos as int, pos + width));
        reveal_with_fuel(span, 9);
    }
    Some(value)
}

} // verus!
