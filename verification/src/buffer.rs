//! The layout of an aligned transfer buffer, and the touching of its pages.
//!
//! The buffer itself is obtained by whoever calls the system allocator. What
//! is decided here is whether a buffer of the size and alignment asked for
//! can exist at all, how many bytes it takes, and which of its elements are
//! written to before the first transfer so that every page of it is backed
//! by memory.
use crate::error::TransferError;
use vstd::arithmetic::power2::is_pow2;
use vstd::layout::{size_of, valid_layout};
use vstd::prelude::*;

verus! {

/// What a buffer takes: `size` bytes in use out of `capacity` bytes, which
/// begin at a multiple of `align`.
#[derive(Clone, Copy, Debug, PartialEq, Eq, Structural)]
pub struct BufferLayout {
    pub size: usize,
    pub capacity: usize,
    pub align: usize,
}

/// The layout of a buffer of `length` elements of type `T` with room for
/// `capacity` of them. An empty buffer takes nothing, whatever the
/// alignment. Any other buffer needs an alignment that is a power of two,
/// and a size in bytes that the allocator can be asked for; its capacity is
/// never less than its size.
pub open spec fn layout_of<T>(length: usize, capacity: usize, align: usize) -> Result<
    BufferLayout,
    TransferError,
> {
    let size = length * size_of::<T>();
    let room = capacity * size_of::<T>();
    if length == 0 {
        Ok(BufferLayout { size: 0, capacity: 0, align })
    } else if size > usize::MAX || room > usize::MAX || !valid_layout(size as usize, align) {
        Err(TransferError::Allocation)
    } else {
        Ok(
            BufferLayout {
                size: size as usize,
                capacity: if room >= size {
                    room as usize
                } else {
                    size as usize
                },
                align,
            },
        )
    }
}

/// `buffer` after `value` has been written to every element whose index is
/// a multiple of `stride`.
pub open spec fn touched<T>(buffer: Seq<T>, stride: int, value: T) -> Seq<T> {
    Seq::new(
        buffer.len(),
        |i: int|
            if i % stride == 0 {
                value
            } else {
                buffer[i]
            },
    )
}

/// The call `page_size::get()`. It hands on what the system reports as the
/// size of a memory page, converted to `usize`; nothing is claimed of that
/// number.
pub assume_specification[ page_size::get ]() -> (size: usize);

/// Whether `n` is a power of two.
pub fn power_of_two(n: usize) -> (answer: bool)
    ensures
        answer == is_pow2(n as int),
{
    if n == 0 {
        proof {
            reveal(is_pow2);
        }
        return false;
    }
    let mut rest: usize = n;
    while rest % 2 == 0
        invariant
            rest >= 1,
            is_pow2(rest as int) == is_pow2(n as int),
        decreases rest,
    {
        proof {
            reveal(is_pow2);
        }
        rest = rest / 2;
    }
    proof {
        reveal(is_pow2);
    }
    rest == 1
}

/// Whether `address` is a multiple of `align`.
pub fn is_aligned(address: usize, align: usize) -> (answer: bool)
    ensures
        answer == (align != 0 && address % align == 0),
{
    align != 0 && address % align == 0
}

/// Works out the layout of a buffer of `length` elements of type `T` with
/// room for `capacity` of them, aligned to `align`. A layout that cannot
/// exist is an allocation error.
pub fn plan_buffer<T>(length: usize, capacity: usize, align: usize) -> (layout: Result<
    BufferLayout,
    TransferError,
>)
    ensures
        layout == layout_of::<T>(length, capacity, align),
{
    if length == 0 {
        return Ok(BufferLayout { size: 0, capacity: 0, align });
    }
    let element: usize = core::mem::size_of::<T>();
    let size: usize = match length.checked_mul(element) {
        Some(size) => size,
        None => {
            return Err(TransferError::Allocation);
        },
    };
    let room: usize = match capacity.checked_mul(element) {
        Some(room) => room,
        None => {
            return Err(TransferError::Allocation);
        },
    };
    if !power_of_two(align) {
        return Err(TransferError::Allocation);
    }
    proof {
        reveal(is_pow2);
        assert(align >= 1);
    }
    let most: usize = isize::MAX as usize;
    proof {
        vstd::arithmetic::div_mod::lemma_mod_decreases(most as nat, align as nat);
    }
    if size > most - most % align {
        return Err(TransferError::Allocation);
    }
    let capacity: usize = if room >= size {
        room
    } else {
        size
    };
    Ok(BufferLayout { size, capacity, align })
}

/// Works out the layout of a buffer that is aligned to the size of a memory
/// page, as the system reports it.
pub fn plan_page_aligned_buffer<T>(length: usize, capacity: usize) -> (layout: Result<
    BufferLayout,
    TransferError,
>)
    ensures
        exists|page: usize| layout == #[trigger] layout_of::<T>(length, capacity, page),
{
    let page: usize = page_size::get();
    let layout = plan_buffer::<T>(length, capacity, page);
    assert(layout == layout_of::<T>(length, capacity, page));
    layout
}

/// Writes `value` to every element of `buffer` whose index is a multiple of
/// `stride`, and to no other.
pub fn prefill<T: Copy>(buffer: &mut [T], stride: usize, value: T)
    requires
        stride >= 1,
    ensures
        final(buffer)@ == touched(old(buffer)@, stride as int, value),
{
    let length: usize = buffer.len();
    let mut index: usize = 0;
    proof {
        assert(0int % (stride as int) == 0) by {
            vstd::arithmetic::div_mod::lemma_small_mod(0, stride as nat);
        }
    }
    while index < length
        invariant_except_break
            index % stride == 0,
            forall|i: int|
                0 <= i < buffer@.len() && i < index ==> buffer@[i] == touched(
                    old(buffer)@,
                    stride as int,
                    value,
                )[i],
            forall|i: int| index <= i < buffer@.len() ==> buffer@[i] == old(buffer)@[i],
        invariant
            stride >= 1,
            length == buffer@.len(),
            buffer@.len() == old(buffer)@.len(),
        ensures
            forall|i: int|
                0 <= i < buffer@.len() ==> buffer@[i] == touched(
                    old(buffer)@,
                    stride as int,
                    value,
                )[i],
            buffer@.len() == old(buffer)@.len(),
        decreases length - index,
    {
        buffer[index] = value;
        proof {
            assert forall|i: int| 0 <= i < buffer@.len() && i < index + stride implies buffer@[i]
                == touched(old(buffer)@, stride as int, value)[i] by {
                if i > index {
                    lemma_between_multiples(index as int, stride as int, i);
                }
            }
            lemma_between_multiples(index as int, stride as int, index + stride);
        }
        if length - index <= stride {
            break ;
        }
        index = index + stride;
    }
    assert(buffer@ =~= touched(old(buffer)@, stride as int, value));
}

/// Touches every page of `buffer`: writes `value` to every element whose
/// index is a multiple of the page size that the system reports. Returns
/// that stride, or zero where the system reports no page size, in which case
/// the buffer is left as it was.
pub fn prefill_pages<T: Copy>(buffer: &mut [T], value: T) -> (stride: usize)
    ensures
        final(buffer)@ == touched_at(old(buffer)@, stride as int, value),
{
    let page: usize = page_size::get();
    prefill_at(buffer, page, value);
    page
}

/// `buffer` after it has been touched with a stride that may be zero: a
/// stride of zero touches nothing.
pub open spec fn touched_at<T>(buffer: Seq<T>, stride: int, value: T) -> Seq<T> {
    if stride >= 1 {
        touched(buffer, stride, value)
    } else {
        buffer
    }
}

/// Touches `buffer` with the stride that the system has reported as its
/// page size. Any stride of at least one is used as it is; with a stride of
/// zero there is no page to touch, and the buffer is left as it was. Returns
/// whether the buffer was touched.
pub fn prefill_at<T: Copy>(buffer: &mut [T], stride: usize, value: T) -> (touches: bool)
    ensures
        touches == (stride >= 1),
        final(buffer)@ == touched_at(old(buffer)@, stride as int, value),
{
    if stride >= 1 {
        prefill(buffer, stride, value);
        true
    } else {
        false
    }
}

/// Behind a multiple of `stride`, the next multiple is `stride` further on.
proof fn lemma_between_multiples(multiple: int, stride: int, i: int)
    requires
        stride >= 1,
        multiple >= 0,
        multiple % stride == 0,
        multiple < i <= multiple + stride,
    ensures
        (i % stride == 0) == (i == multiple + stride),
{
    vstd::arithmetic::div_mod::lemma_fundamental_div_mod(multiple, stride);
    vstd::arithmetic::div_mod::lemma_fundamental_div_mod(i, stride);
    vstd::arithmetic::div_mod::lemma_mod_bound(i, stride);
    let q = multiple / stride;
    let p = i / stride;
    assert(stride * p - stride * q == stride * (p - q)) by (nonlinear_arith);
    if i % stride == 0 {
        assert(p - q == 1) by (nonlinear_arith)
            requires
                stride >= 1,
                0 < stride * (p - q) <= stride,
        ;
        assert(stride * (p - q) == stride) by (nonlinear_arith)
            requires
                p - q == 1,
        ;
    } else if i == multiple + stride {
        assert(stride * (q + 1) == stride * q + stride) by (nonlinear_arith);
        vstd::arithmetic::div_mod::lemma_mod_multiples_basic(q + 1, stride);
        assert((q + 1) * stride == stride * (q + 1)) by (nonlinear_arith);
    }
}

} // verus!
