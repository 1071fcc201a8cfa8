//! A representation of a memory page.
//!
//! A page is identified by its address, which is guaranteed to be properly aligned and non-null.

use vstd::prelude::*;

verus! {

/// A representation of the contents of a raw page.
pub struct PageData {
    pub bytes: Vec<u8>,
}

impl PageData {
    /// The size of the offset part in bits.
    pub const OFFSET_BITS: usize = 12;

    /// The size of a single page.
    pub const SIZE: usize = 4096;

    /// The alignment of a single page. This is always equivalent to the `SIZE`
    pub const ALIGN: usize = 4096;

    /// The mask for the offset bits.
    pub const OFFSET_MASK: usize = 4095;
}

/// The address of a page. It is never null and always aligned to the page size.
#[derive(Clone, Copy, Debug, PartialEq, Eq)]
pub struct Page(u64);

/// Error returned if an address is not aligned to a page boundary.
#[derive(Clone, Copy, Debug, PartialEq, Eq)]
pub struct BadAlignment;

/// Error returned if converting a pointer to a page failed.
#[derive(Clone, Copy, Debug, PartialEq, Eq)]
pub enum FromPointerError {
    /// The pointer is null
    Null,
    /// The pointer isn't properly aligned,
    BadAlignment,
}

/// Whether `address` is a valid page address: non-null and page aligned.
pub open spec fn is_page_address(address: int) -> bool {
    address != 0 && address % 4096 == 0
}

impl Page {
    /// The size of the offset part in bits.
    pub const OFFSET_BITS: usize = 12;

    /// The size of a single page.
    pub const SIZE: usize = 4096;

    /// The alignment of a single page. This is always equivalent to the `SIZE`
    pub const ALIGN: usize = 4096;

    /// The mask for the offset bits.
    pub const OFFSET_MASK: usize = 4095;

    #[verifier::type_invariant]
    spec fn inv(self) -> bool {
        is_page_address(self.0 as int)
    }

    /// The address of this page.
    pub closed spec fn view(self) -> u64 {
        self.0
    }

    /// Every page address is non-null and aligned.
    pub fn lemma_valid(&self)
        ensures
            is_page_address(self@ as int),
    {
        proof {
            use_type_invariant(self);
        }
    }

    /// Create a new `Page` with the given non-null address.
    ///
    /// Returns an error if the address isn't properly aligned.
    pub fn new(address: u64) -> (r: Result<Self, BadAlignment>)
        requires
            address != 0,
        ensures
            r is Ok <==> address % 4096 == 0,
            r matches Ok(p) ==> p@ == address,
    {
        if address & 4095 == 0 {
            proof {
                assert(address & 4095 == address % 4096) by (bit_vector);
            }
            Ok(Page(address))
        } else {
            proof {
                assert(address & 4095 == address % 4096) by (bit_vector);
            }
            Err(BadAlignment)
        }
    }

    /// Create a new `Page` from a raw pointer.
    pub fn from_pointer(ptr: u64) -> (r: Result<Self, FromPointerError>)
        ensures
            ptr == 0 ==> r == Err::<Page, FromPointerError>(FromPointerError::Null),
            ptr != 0 && ptr % 4096 != 0 ==> r == Err::<Page, FromPointerError>(
                FromPointerError::BadAlignment,
            ),
            r is Ok <==> is_page_address(ptr as int),
            r matches Ok(p) ==> p@ == ptr,
    {
        if ptr != 0 {
            match Self::new(ptr) {
                Ok(page) => Ok(page),
                Err(BadAlignment) => Err(FromPointerError::BadAlignment),
            }
        } else {
            Err(FromPointerError::Null)
        }
    }

    /// Create a new `Page` from an usize.
    pub fn from_usize(ptr: u64) -> (r: Result<Self, FromPointerError>)
        ensures
            ptr == 0 ==> r == Err::<Page, FromPointerError>(FromPointerError::Null),
            ptr != 0 && ptr % 4096 != 0 ==> r == Err::<Page, FromPointerError>(
                FromPointerError::BadAlignment,
            ),
            r is Ok <==> is_page_address(ptr as int),
            r matches Ok(p) ==> p@ == ptr,
    {
        Self::from_pointer(ptr)
    }

    /// Return the address of this page.
    pub fn as_ptr(&self) -> (r: u64)
        ensures
            r == self@,
            is_page_address(r as int),
    {
        proof {
            use_type_invariant(self);
        }
        self.0
    }

    /// Return the address of this page.
    pub fn as_non_null_ptr(&self) -> (r: u64)
        ensures
            r == self@,
            is_page_address(r as int),
    {
        self.as_ptr()
    }

    /// Return the page that comes after this one, if the address space has room for it.
    pub fn next(&self) -> (r: Option<Self>)
        ensures
            r is Some <==> self@ + 4096 <= u64::MAX,
            r matches Some(p) ==> p@ == self@ + 4096,
    {
        self.skip(1)
    }

    /// Return the page at the given offset (in pages), if the address space has room for it.
    pub fn skip(&self, offset: u64) -> (r: Option<Self>)
        ensures
            r is Some <==> self@ + offset * 4096 <= u64::MAX,
            r matches Some(p) ==> p@ == self@ + offset * 4096,
    {
        proof {
            use_type_invariant(self);
        }
        match offset.checked_mul(4096) {
            None => None,
            Some(bytes) => match self.0.checked_add(bytes) {
                None => None,
                Some(address) => {
                    assert(address % 4096 == 0) by {
                        vstd::arithmetic::div_mod::lemma_mod_multiples_vanish(
                            offset as int,
                            self.0 as int,
                            4096,
                        );
                    }
                    Some(Page(address))
                },
            },
        }
    }

    /// Return the amount of pages needed to cover the given amount of bytes.
    pub fn min_pages_for_byte_count(bytes: usize) -> (r: usize)
        requires
            bytes + 4095 <= usize::MAX,
        ensures
            r == (bytes + 4095) / 4096,
    {
        (bytes + 4095) / 4096
    }
}

} // verus!
