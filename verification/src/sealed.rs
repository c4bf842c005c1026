//! Closes [`crate::endian::Payload`] to the integer types listed here.

use vstd::prelude::*;

verus! {

pub trait Sealed {

}

impl Sealed for u16 {

}

impl Sealed for u32 {

}

impl Sealed for u64 {

}

impl Sealed for usize {

}

impl Sealed for i16 {

}

impl Sealed for i32 {

}

impl Sealed for i64 {

}

impl Sealed for isize {

}

} // verus!
