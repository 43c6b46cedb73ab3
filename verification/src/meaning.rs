//! What arguments, results and memory mean to a program, in plain terms. The laws of
//! the other modules say with these words what operations are for.

use vstd::bytes::{lemma_auto_spec_u64_to_from_le_bytes, spec_u64_to_le_bytes};
use vstd::prelude::*;
use vstd::utf8::*;

use crate::array::{array_bytes, AsterArray};
use crate::context::ExecutionContext;
use crate::memory::{bytes_at, has_range, overwritten, preserved};
use crate::string::{raw_payload, text_of, text_payload};
use crate::string_store::{string_at, string_block, STRING_HEADER_SIZE};

verus! {

/// A block: how many bytes there are, and then the bytes.
pub open spec fn block_of(bytes: Seq<u8>) -> Seq<u8> {
    spec_u64_to_le_bytes(bytes.len() as u64) + bytes
}

/// An argument starts with the block of these bytes.
pub open spec fn carries_bytes(argument: Option<&[u8]>, bytes: Seq<u8>) -> bool {
    &&& bytes.len() <= u64::MAX
    &&& argument matches Some(block) && block_of(bytes).is_prefix_of(block@)
}

/// An argument starts with the block of a text.
pub open spec fn carries(argument: Option<&[u8]>, text: Seq<char>) -> bool {
    carries_bytes(argument, encode_utf8(text))
}

/// Memory holds these bytes from an address on.
pub open spec fn holds(m: Map<int, u8>, address: int, bytes: Seq<u8>) -> bool {
    &&& forall|k: int| address <= k < address + bytes.len() ==> #[trigger] m.contains_key(k)
    &&& forall|i: int| 0 <= i < bytes.len() ==> m[address + i] == #[trigger] bytes[i]
}

/// The block of these bytes lies at an address.
pub open spec fn says_bytes(m: Map<int, u8>, address: u64, bytes: Seq<u8>) -> bool {
    address > 0 && bytes.len() <= u64::MAX && holds(m, address as int, block_of(bytes))
}

/// The block of a text lies at an address.
pub open spec fn says(m: Map<int, u8>, address: u64, text: Seq<char>) -> bool {
    says_bytes(m, address, encode_utf8(text))
}

/// Everything that was allocated still is, with the same bytes.
pub open spec fn keeps(before: Map<int, u8>, after: Map<int, u8>) -> bool {
    forall|k: int| #[trigger]
        before.contains_key(k) ==> after.contains_key(k) && after[k] == before[k]
}

/// Memory that an arena got since: nothing of it was allocated before.
pub open spec fn is_fresh(
    before: ExecutionContext,
    after: ExecutionContext,
    temporary: bool,
    address: int,
    size: int,
) -> bool {
    forall|k: int|
        address <= k < address + size ==> !before.mem().contains_key(k)
            && #[trigger] after.region(temporary).mem().contains_key(k)
}

/// Memory of `size` bytes can be had without asking the host for more.
pub open spec fn is_at_hand(before: ExecutionContext, temporary: bool, size: int) -> bool {
    &&& temporary ==> before.scopes().len() > 0
    &&& size <= usize::MAX
    &&& !before.region(temporary).needs_page(size, 8)
}

/// What an operation owes that makes a block of these bytes: a new block in the arena
/// that was asked for, and nothing else. Where there is none, that is reported, the
/// memory is the same, and it was not at hand.
pub open spec fn makes_bytes(
    before: ExecutionContext,
    after: ExecutionContext,
    temporary: bool,
    bytes: Seq<u8>,
    result: Option<u64>,
) -> bool {
    let size = 8 + bytes.len() as int;
    &&& keeps(before.mem(), after.mem())
    &&& after.region(!temporary) == before.region(!temporary)
    &&& after.installed() == before.installed()
    &&& after.scopes() == before.scopes()
    &&& result matches Some(address) ==> {
        &&& says_bytes(after.mem(), address, bytes)
        &&& is_fresh(before, after, temporary, address as int, size)
        &&& address as int % 8 == 0
        &&& after.error_text() == before.error_text()
    }
    &&& result is None ==> {
        &&& after.error_text() is Some
        &&& before.error_text() is Some ==> after.error_text() == before.error_text()
        &&& after.mem() == before.mem()
        &&& !is_at_hand(before, temporary, size)
    }
}

/// What an operation owes that makes a text.
pub open spec fn makes(
    before: ExecutionContext,
    after: ExecutionContext,
    temporary: bool,
    text: Seq<char>,
    result: Option<u64>,
) -> bool {
    makes_bytes(before, after, temporary, encode_utf8(text), result)
}

/// A pointer lies at an address, and the block of these bytes where it points.
pub open spec fn refers_to(m: Map<int, u8>, at: int, bytes: Seq<u8>) -> bool {
    exists|address: u64|
        {
            &&& #[trigger] says_bytes(m, address, bytes)
            &&& holds(m, at, spec_u64_to_le_bytes(address))
            &&& address + 8 <= u64::MAX
            &&& bytes.len() <= usize::MAX
        }
}

/// An array has an element for each of these byte strings, and the element refers to
/// its block.
pub open spec fn lists_bytes(m: Map<int, u8>, array: AsterArray, pieces: Seq<Seq<u8>>) -> bool {
    &&& array.length == pieces.len()
    &&& array.element_size == 8
    &&& array.data > 0
    &&& array.address > 0
    &&& forall|i: int|
        0 <= i < pieces.len() ==> refers_to(m, array.data + 8 * i, #[trigger] pieces[i])
}

/// What an operation owes that makes an array of byte strings: new elements and new
/// blocks, and nothing else. Where there is no array, that is reported.
pub open spec fn makes_list(
    before: ExecutionContext,
    after: ExecutionContext,
    temporary: bool,
    pieces: Seq<Seq<u8>>,
    result: Option<AsterArray>,
) -> bool {
    &&& keeps(before.mem(), after.mem())
    &&& after.installed() == before.installed()
    &&& after.scopes() == before.scopes()
    &&& result matches Some(array) ==> {
        &&& lists_bytes(after.mem(), array, pieces)
        &&& is_fresh(before, after, temporary, array.data as int, 8 * pieces.len() as int)
        &&& is_fresh(before, after, temporary, array.address as int, 16)
        &&& after.error_text() == before.error_text()
        &&& after.region(!temporary) == before.region(!temporary)
    }
    &&& result is None ==> after.error_text() is Some
}

/// What an operation owes that refuses its arguments: an error is recorded, unless
/// there is one, and nothing else happens.
pub open spec fn refuses(before: ExecutionContext, after: ExecutionContext) -> bool {
    &&& after.error_text() is Some
    &&& before.error_text() is Some ==> after.error_text() == before.error_text()
    &&& is_untouched(before, after)
}

/// What an operation owes that only looks: nothing happens.
pub open spec fn only_looks(before: ExecutionContext, after: ExecutionContext) -> bool {
    &&& after.error_text() == before.error_text()
    &&& is_untouched(before, after)
}

/// Nothing changed but perhaps the recorded error.
pub open spec fn is_untouched(before: ExecutionContext, after: ExecutionContext) -> bool {
    &&& after.persistent() == before.persistent()
    &&& after.temporary() == before.temporary()
    &&& after.scopes() == before.scopes()
    &&& after.installed() == before.installed()
    &&& after.memory_statistics() == before.memory_statistics()
    &&& after.configuration() == before.configuration()
}

/// An argument that carries bytes is read as those bytes.
pub proof fn lemma_carries_bytes(argument: Option<&[u8]>, bytes: Seq<u8>)
    requires
        carries_bytes(argument, bytes),
    ensures
        raw_payload(argument) == Some(bytes),
        valid_utf8(bytes) ==> text_payload(argument) == Some(bytes),
        !valid_utf8(bytes) ==> text_payload(argument) is None,
{
    lemma_auto_spec_u64_to_from_le_bytes();
    let block = argument->0@;
    let whole = block_of(bytes);
    let header = spec_u64_to_le_bytes(bytes.len() as u64);
    assert(block.take(8) =~= header) by {
        assert forall|i: int| 0 <= i < 8 implies block[i] == header[i] by {
            assert(whole[i] == block.subrange(0, whole.len() as int)[i]);
        }
    }
    assert(block.subrange(8, 8 + bytes.len() as int) =~= bytes) by {
        assert forall|i: int| 0 <= i < bytes.len() implies block[8 + i] == bytes[i] by {
            assert(whole[8 + i] == block.subrange(0, whole.len() as int)[8 + i]);
        }
    }
}

/// An argument that carries a text is read as that text.
pub proof fn lemma_carries(argument: Option<&[u8]>, text: Seq<char>)
    requires
        carries(argument, text),
    ensures
        text_payload(argument) == Some(encode_utf8(text)),
        text_of(argument) == Some(text),
        valid_utf8(encode_utf8(text)),
{
    encode_utf8_valid_utf8(text);
    encode_utf8_decode_utf8(text);
    lemma_carries_bytes(argument, encode_utf8(text));
}

/// An argument that is read as bytes carries them.
pub proof fn lemma_payload_is_carried(argument: Option<&[u8]>)
    ensures
        raw_payload(argument) matches Some(bytes) ==> carries_bytes(argument, bytes),
        text_payload(argument) matches Some(bytes) ==> carries_bytes(argument, bytes)
            && valid_utf8(bytes),
        text_of(argument) matches Some(text) ==> carries(argument, text),
{
    if let Some(bytes) = raw_payload(argument) {
        lemma_auto_spec_u64_to_from_le_bytes();
        let block = argument->0@;
        let header = block.take(8);
        assert(spec_u64_to_le_bytes(bytes.len() as u64) == header);
        assert(block_of(bytes) =~= block.subrange(0, 8 + bytes.len() as int));
        if valid_utf8(bytes) {
            decode_utf8_encode_utf8(bytes);
        }
    }
}

/// Where a block lies, its string is read, and the other way round.
pub proof fn lemma_says_bytes(m: Map<int, u8>, address: u64, bytes: Seq<u8>)
    requires
        bytes.len() <= usize::MAX,
        address + 8 <= u64::MAX,
    ensures
        string_at(m, address) == Some(bytes) <==> says_bytes(m, address, bytes) && valid_utf8(
            bytes,
        ),
{
    lemma_auto_spec_u64_to_from_le_bytes();
    let header = spec_u64_to_le_bytes(bytes.len() as u64);
    let block = block_of(bytes);
    if says_bytes(m, address, bytes) {
        assert forall|k: int| address <= k < address + 8 + bytes.len() implies
            #[trigger] m.contains_key(k) && m[k] == block[k - address] by {
            assert(m[address + (k - address)] == block[k - address]);
        }
        let found = bytes_at(m, address as int, STRING_HEADER_SIZE as nat);
        assert forall|i: int| 0 <= i < 8 implies #[trigger] found[i] == header[i] by {
            assert(m.contains_key(address + i));
            assert(block[i] == header[i]);
        }
        assert(found =~= header);
        let payload = bytes_at(m, address + STRING_HEADER_SIZE, bytes.len());
        assert forall|i: int| 0 <= i < bytes.len() implies #[trigger] payload[i] == bytes[i] by {
            assert(m.contains_key(address + 8 + i));
            assert(block[8 + i] == bytes[i]);
        }
        assert(payload =~= bytes);
    }
    if string_at(m, address) == Some(bytes) {
        let found = bytes_at(m, address as int, STRING_HEADER_SIZE as nat);
        assert(spec_u64_to_le_bytes(vstd::bytes::spec_u64_from_le_bytes(found)) == found);
        assert(found == header);
        assert forall|i: int| 0 <= i < block.len() implies m.contains_key(address + i) && m[address
            + i] == #[trigger] block[i] by {
            if i < 8 {
                assert(found[i] == header[i]);
                assert(has_range(m, address as int, 8));
                assert(m.contains_key(address + i));
            } else {
                assert(bytes_at(m, address + 8, bytes.len())[i - 8] == bytes[i - 8]);
                assert(has_range(m, address + 8, bytes.len() as int));
                assert(m.contains_key(address + 8 + (i - 8)));
            }
        }
    }
}

/// What storing a string means.
pub proof fn lemma_makes(
    before: ExecutionContext,
    after: ExecutionContext,
    temporary: bool,
    bytes: Seq<u8>,
    result: Option<u64>,
)
    requires
        before.arenas_wf(),
        after.wf(),
        after.string_outcome(before, temporary, bytes, result),
    ensures
        makes_bytes(before, after, temporary, bytes, result),
{
    lemma_auto_spec_u64_to_from_le_bytes();
    let size = 8 + bytes.len() as int;
    if let Some(address) = result {
        after.lemma_placed_with(before, temporary, address, size, 8, string_block(bytes));
        let block = block_of(bytes);
        assert(block =~= string_block(bytes));
        assert forall|i: int| 0 <= i < block.len() implies after.mem().contains_key(address + i)
            && after.mem()[address + i] == #[trigger] block[i] by {
            assert(has_range(after.mem(), address as int, size));
            assert(after.mem().contains_key(address + i));
            assert(bytes_at(after.mem(), address as int, block.len())[i] == block[i]);
        }
        assert forall|k: int| address <= k < address + size implies !before.mem().contains_key(k)
            && #[trigger] after.region(temporary).mem().contains_key(k) by {
            assert(after.mem().contains_key(k));
            assert(!before.mem().contains_key(k));
            assert(!before.region(!temporary).mem().contains_key(k));
        }
        assert forall|k: int| #[trigger] before.mem().contains_key(k) implies
            after.mem().contains_key(k) && after.mem()[k] == before.mem()[k] by {
            assert(preserved(before.mem(), after.mem()));
        }
    }
}

/// What storing an array of strings means.
pub proof fn lemma_makes_list(
    before: ExecutionContext,
    after: ExecutionContext,
    temporary: bool,
    pieces: Seq<Seq<u8>>,
    result: Option<AsterArray>,
)
    requires
        before.arenas_wf(),
        after.wf(),
        pieces.len() <= i32::MAX,
        8 * pieces.len() <= usize::MAX,
        after.strings_outcome(before, temporary, pieces, result),
    ensures
        makes_list(before, after, temporary, pieces, result),
{
    if let Some(array) = result {
        lemma_auto_spec_u64_to_from_le_bytes();
        let m = after.mem();
        let bytes = array_bytes(pieces.len() as i32, 8);
        assert(bytes >= 8 * pieces.len());
        assert forall|i: int| 0 <= i < pieces.len() implies refers_to(
            m,
            array.data + 8 * i,
            #[trigger] pieces[i],
        ) by {
            assert(array.string_in(m, i) == Some(pieces[i]));
            let found = bytes_at(m, array.slot(i), 8);
            let address = vstd::bytes::spec_u64_from_le_bytes(found);
            assert(i * 8 == 8 * i);
            assert(string_at(m, address) == Some(pieces[i]));
            lemma_says_bytes(m, address, pieces[i]);
            assert(spec_u64_to_le_bytes(address) == found);
            assert forall|k: int| 0 <= k < 8 implies m.contains_key(array.data + 8 * i + k)
                && m[array.data + 8 * i + k] == #[trigger] spec_u64_to_le_bytes(address)[k] by {
                assert(has_range(m, array.slot(i), 8));
                assert(found[k] == m[array.slot(i) + k]);
            }
            assert(says_bytes(m, address, pieces[i]));
        }
        assert(is_fresh(before, after, temporary, array.data as int, 8 * pieces.len() as int));
        assert(is_fresh(before, after, temporary, array.address as int, 16));
    }
    assert(keeps(before.mem(), after.mem())) by {
        assert(preserved(before.mem(), after.mem()));
    }
}

/// What lies in memory stays there while memory is kept.
pub proof fn lemma_says_on(m: Map<int, u8>, w: Map<int, u8>, address: u64, bytes: Seq<u8>)
    requires
        keeps(m, w),
    ensures
        says_bytes(m, address, bytes) ==> says_bytes(w, address, bytes),
{
    if says_bytes(m, address, bytes) {
        let block = block_of(bytes);
        assert forall|k: int| address <= k < address + block.len() implies #[trigger] w.contains_key(
            k,
        ) by {
            assert(m.contains_key(k));
        }
        assert forall|i: int| 0 <= i < block.len() implies w[address + i] == #[trigger] block[i] by {
            assert(m.contains_key(address + i));
        }
    }
}

} // verus!
