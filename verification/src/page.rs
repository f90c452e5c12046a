//! One fixed-size page: a byte buffer whose first bytes are the header,
//! together with the bookkeeping that exists only while the page is in memory.

use crate::layout::{
    le_u16, le_u32, le_u64, lemma_overwrite_head, lemma_overwrite_in_order,
    lemma_u32_written_is_read, lemma_u64_written_is_read, overwrite, read_u16, read_u32, read_u64,
    u16_le_bytes, u32_le_bytes, u64_le_bytes, write_u16, write_u32, write_u64, zeros,
    CHECKSUM_OFFSET, FREE_SPACE_POINTER_OFFSET, ITEM_COUNT_OFFSET, LSN_OFFSET, PADDING_OFFSET,
    PAGE_ID_OFFSET, PAGE_TYPE_OFFSET,
};
use crate::page_constants::{PageId, HEADER_SIZE, PAGE_SIZE};
use vstd::prelude::*;

verus! {

/// What a page stores. The header keeps it as a 2-byte tag.
#[derive(Debug, Copy, Clone, PartialEq, Eq, Structural)]
pub enum PageType {
    NodeStore,
    Relationship,
    PropertyStore,
}

impl PageType {
    /// The tag under which the header stores this type.
    pub open spec fn spec_tag(self) -> u16 {
        match self {
            PageType::NodeStore => 0,
            PageType::Relationship => 1,
            PageType::PropertyStore => 2,
        }
    }

    /// The type that a tag stands for, if it stands for one.
    pub open spec fn spec_from_tag(tag: u16) -> Option<PageType> {
        if tag == 0 {
            Some(PageType::NodeStore)
        } else if tag == 1 {
            Some(PageType::Relationship)
        } else if tag == 2 {
            Some(PageType::PropertyStore)
        } else {
            None
        }
    }

    /// The tag under which the header stores this type.
    #[verifier::when_used_as_spec(spec_tag)]
    pub fn tag(self) -> (t: u16)
        ensures
            t == self.spec_tag(),
            PageType::spec_from_tag(t) == Some(self),
    {
        match self {
            PageType::NodeStore => 0,
            PageType::Relationship => 1,
            PageType::PropertyStore => 2,
        }
    }

    /// The type that a tag stands for; `None` for a tag that no type uses.
    pub fn from_tag(tag: u16) -> (r: Option<PageType>)
        ensures
            r == PageType::spec_from_tag(tag),
            r matches Some(t) ==> t.spec_tag() == tag,
    {
        if tag == 0 {
            Some(PageType::NodeStore)
        } else if tag == 1 {
            Some(PageType::Relationship)
        } else if tag == 2 {
            Some(PageType::PropertyStore)
        } else {
            None
        }
    }
}

/// The header of a page, field by field.
#[derive(Debug, Copy, Clone, PartialEq, Eq, Structural)]
pub struct PageHeader {
    /// Log-sequence-number; reserved.
    pub lsn: u64,
    /// Identifier of the page.
    pub page_id: u64,
    /// Reserved for an integrity check.
    pub checksum: u32,
    /// Offset of the first free byte of the page.
    pub free_space_pointer: u32,
    /// Number of items stored in the page.
    pub item_count: u32,
    /// What the page stores.
    pub page_type: PageType,
    /// Keeps the header at a multiple of 8 bytes.
    pub _padding: u16,
}

/// The 32 bytes that store a header with the given field values, in field order.
pub open spec fn header_image(
    lsn: u64,
    page_id: u64,
    checksum: u32,
    free_space_pointer: u32,
    item_count: u32,
    type_tag: u16,
    padding: u16,
) -> Seq<u8> {
    u64_le_bytes(lsn) + u64_le_bytes(page_id) + u32_le_bytes(checksum) + u32_le_bytes(
        free_space_pointer,
    ) + u32_le_bytes(item_count) + u16_le_bytes(type_tag) + u16_le_bytes(padding)
}

impl PageHeader {
    /// The header of an empty page: nothing allocated, no items, all reserved
    /// fields zero.
    pub open spec fn spec_new(page_id: u64, page_type: PageType) -> PageHeader {
        PageHeader {
            lsn: 0,
            page_id,
            checksum: 0,
            free_space_pointer: HEADER_SIZE as u32,
            item_count: 0,
            page_type,
            _padding: 0,
        }
    }

    /// The bytes that store this header.
    pub open spec fn image(self) -> Seq<u8> {
        header_image(
            self.lsn,
            self.page_id,
            self.checksum,
            self.free_space_pointer,
            self.item_count,
            self.page_type.spec_tag(),
            self._padding,
        )
    }

    /// Creates the header of an empty page with the given identifier and type.
    pub fn new(page_id: u64, page_type: PageType) -> (h: Self)
        ensures
            h == PageHeader::spec_new(page_id, page_type),
    {
        PageHeader {
            lsn: 0,
            page_id,
            checksum: 0,
            free_space_pointer: HEADER_SIZE as u32,
            item_count: 0,
            page_type,
            _padding: 0,
        }
    }
}

/// A page held in memory.
pub struct Page {
    /// The page as it is stored: header first, then the data region.
    pub data: [u8; PAGE_SIZE],
    /// The page that this buffer currently holds, if any. Never stored.
    pub page_id: Option<PageId>,
    /// Whether the buffer differs from what was last stored. Never stored.
    pub is_dirty: bool,
    /// Number of outstanding pins. Never stored.
    pub pin_count: u32,
    /// Set on every use, cleared by the eviction policy. Never stored.
    pub ref_bit: bool,
}

/// A page as a mathematical value.
pub struct PageView {
    /// The `PAGE_SIZE` bytes of the buffer.
    pub bytes: Seq<u8>,
    /// The page that the buffer holds.
    pub page_id: Option<PageId>,
    /// Whether the buffer differs from what was last stored.
    pub is_dirty: bool,
    /// Number of outstanding pins.
    pub pin_count: nat,
    /// The eviction policy's reference bit.
    pub ref_bit: bool,
}

impl PageView {
    /// The log-sequence-number in the header.
    pub open spec fn lsn(self) -> u64 {
        le_u64(self.bytes, LSN_OFFSET as int)
    }

    /// The page identifier in the header.
    pub open spec fn stored_page_id(self) -> u64 {
        le_u64(self.bytes, PAGE_ID_OFFSET as int)
    }

    /// The checksum in the header.
    pub open spec fn checksum(self) -> u32 {
        le_u32(self.bytes, CHECKSUM_OFFSET as int)
    }

    /// The free-space pointer in the header.
    pub open spec fn free_space_pointer(self) -> u32 {
        le_u32(self.bytes, FREE_SPACE_POINTER_OFFSET as int)
    }

    /// The item count in the header.
    pub open spec fn item_count(self) -> u32 {
        le_u32(self.bytes, ITEM_COUNT_OFFSET as int)
    }

    /// The page-type tag in the header, as stored.
    pub open spec fn type_tag(self) -> u16 {
        le_u16(self.bytes, PAGE_TYPE_OFFSET as int)
    }

    /// The padding in the header.
    pub open spec fn padding(self) -> u16 {
        le_u16(self.bytes, PADDING_OFFSET as int)
    }

    /// The page type that the header names, if its tag names one.
    pub open spec fn page_type(self) -> Option<PageType> {
        PageType::spec_from_tag(self.type_tag())
    }

    /// The header, decoded; `None` where the tag names no page type.
    pub open spec fn header(self) -> Option<PageHeader> {
        match self.page_type() {
            Some(page_type) => Some(
                PageHeader {
                    lsn: self.lsn(),
                    page_id: self.stored_page_id(),
                    checksum: self.checksum(),
                    free_space_pointer: self.free_space_pointer(),
                    item_count: self.item_count(),
                    page_type,
                    _padding: self.padding(),
                },
            ),
            None => None,
        }
    }

    /// The bytes after the header.
    pub open spec fn data_segment(self) -> Seq<u8> {
        self.bytes.subrange(HEADER_SIZE as int, PAGE_SIZE as int)
    }

    /// The buffer has its full size and the free-space pointer lies between
    /// the end of the header and the end of the page.
    pub open spec fn wf(self) -> bool {
        &&& self.bytes.len() == PAGE_SIZE
        &&& HEADER_SIZE <= self.free_space_pointer() <= PAGE_SIZE
    }

    /// Number of bytes from the free-space pointer to the end of the page.
    pub open spec fn free_space(self) -> int {
        PAGE_SIZE - self.free_space_pointer()
    }

    /// This page with other bytes and the same bookkeeping.
    pub open spec fn with_bytes(self, bytes: Seq<u8>) -> PageView {
        PageView { bytes, ..self }
    }

    /// An empty page: a fresh header, a zeroed data region, not dirty, not
    /// pinned, reference bit set.
    pub open spec fn fresh(page_id: PageId, page_type: PageType) -> PageView {
        PageView {
            bytes: PageHeader::spec_new(page_id, page_type).image() + zeros(
                (PAGE_SIZE - HEADER_SIZE) as nat,
            ),
            page_id: Some(page_id),
            is_dirty: false,
            pin_count: 0,
            ref_bit: true,
        }
    }

    /// A page rebuilt from stored bytes: it holds the page that the stored
    /// header names, and is not dirty, not pinned, reference bit clear.
    pub open spec fn loaded(bytes: Seq<u8>) -> PageView {
        PageView {
            bytes,
            page_id: Some(le_u64(bytes, PAGE_ID_OFFSET as int)),
            is_dirty: false,
            pin_count: 0,
            ref_bit: false,
        }
    }

    /// What `allocate` returns: the old free-space pointer if `size` bytes
    /// fit behind it, else nothing.
    pub open spec fn allocation(self, size: nat) -> Option<u32> {
        if size <= self.free_space() {
            Some(self.free_space_pointer())
        } else {
            None
        }
    }

    /// The page after `allocate`: the free-space pointer moved up by `size`
    /// if that many bytes fit, else the page as it was.
    pub open spec fn allocate(self, size: nat) -> PageView {
        if size <= self.free_space() {
            self.with_bytes(
                overwrite(
                    self.bytes,
                    FREE_SPACE_POINTER_OFFSET as int,
                    u32_le_bytes((self.free_space_pointer() + size) as u32),
                ),
            )
        } else {
            self
        }
    }

    /// The page after `reset`: a fresh header that keeps the stored page
    /// identifier and type tag, a zeroed data region, cleared bookkeeping.
    pub open spec fn reset(self) -> PageView {
        PageView {
            bytes: header_image(
                0,
                self.stored_page_id(),
                0,
                HEADER_SIZE as u32,
                0,
                self.type_tag(),
                0,
            ) + zeros((PAGE_SIZE - HEADER_SIZE) as nat),
            page_id: Some(self.stored_page_id()),
            is_dirty: false,
            pin_count: 0,
            ref_bit: false,
        }
    }

    /// The page after a successful `write_at`: the bytes laid over the
    /// buffer from `offset` on, and the page marked dirty.
    pub open spec fn write_at(self, offset: int, data: Seq<u8>) -> PageView {
        PageView { bytes: overwrite(self.bytes, offset, data), is_dirty: true, ..self }
    }
}

impl View for Page {
    type V = PageView;

    open spec fn view(&self) -> PageView {
        PageView {
            bytes: self.data@,
            page_id: self.page_id,
            is_dirty: self.is_dirty,
            pin_count: self.pin_count as nat,
            ref_bit: self.ref_bit,
        }
    }
}

impl Page {
    /// The page is well formed: see [`PageView::wf`].
    pub open spec fn wf(&self) -> bool {
        self@.wf()
    }

    /// Creates an empty page that holds `page_id`: a fresh header, a zeroed
    /// data region, not dirty, not pinned, reference bit set.
    pub fn new(page_id: PageId, page_type: PageType) -> (page: Self)
        ensures
            page@ == PageView::fresh(page_id, page_type),
            page.wf(),
            page@.header() == Some(PageHeader::spec_new(page_id, page_type)),
    {
        let mut page = Page {
            data: [0u8; PAGE_SIZE],
            page_id: Some(page_id),
            is_dirty: false,
            pin_count: 0,
            ref_bit: true,
        };
        page.write_header(PageHeader::new(page_id, page_type));
        proof {
            let header = PageHeader::spec_new(page_id, page_type);
            let rest = zeros((PAGE_SIZE - HEADER_SIZE) as nat);
            lemma_header_image_fields(
                header.lsn,
                header.page_id,
                header.checksum,
                header.free_space_pointer,
                header.item_count,
                header.page_type.spec_tag(),
                header._padding,
                rest,
            );
            assert(page@.bytes =~= header.image() + rest);
        }
        page
    }

    /// Rebuilds a page from stored bytes. The page it holds is the one that
    /// the stored header names; nothing in the bytes is checked.
    pub fn from_bytes(data: [u8; PAGE_SIZE]) -> (page: Self)
        ensures
            page@ == PageView::loaded(data@),
    {
        let page_id = read_u64(&data, PAGE_ID_OFFSET);
        Page { data, page_id: Some(page_id), is_dirty: false, pin_count: 0, ref_bit: false }
    }

    /// Decodes the header. Returns `None` where the stored tag names no page
    /// type.
    pub fn get_header(&self) -> (header: Option<PageHeader>)
        ensures
            header == self@.header(),
    {
        match PageType::from_tag(read_u16(&self.data, PAGE_TYPE_OFFSET)) {
            Some(page_type) => Some(
                PageHeader {
                    lsn: read_u64(&self.data, LSN_OFFSET),
                    page_id: read_u64(&self.data, PAGE_ID_OFFSET),
                    checksum: read_u32(&self.data, CHECKSUM_OFFSET),
                    free_space_pointer: read_u32(&self.data, FREE_SPACE_POINTER_OFFSET),
                    item_count: read_u32(&self.data, ITEM_COUNT_OFFSET),
                    page_type,
                    _padding: read_u16(&self.data, PADDING_OFFSET),
                },
            ),
            None => None,
        }
    }

    /// Stores `header` over the first `HEADER_SIZE` bytes of the buffer.
    pub fn write_header(&mut self, header: PageHeader)
        ensures
            final(self)@ == old(self)@.with_bytes(overwrite(old(self)@.bytes, 0, header.image())),
            final(self)@.header() == Some(header),
            final(self)@.data_segment() == old(self)@.data_segment(),
    {
        store_header(
            &mut self.data,
            header.lsn,
            header.page_id,
            header.checksum,
            header.free_space_pointer,
            header.item_count,
            header.page_type.tag(),
            header._padding,
        );
        proof {
            lemma_header_image_fields(
                header.lsn,
                header.page_id,
                header.checksum,
                header.free_space_pointer,
                header.item_count,
                header.page_type.spec_tag(),
                header._padding,
                old(self)@.data_segment(),
            );
            assert(self@.data_segment() =~= old(self)@.data_segment());
        }
    }

    /// The page identifier in the header.
    pub fn get_page_id(&self) -> (id: u64)
        ensures
            id == self@.stored_page_id(),
    {
        read_u64(&self.data, PAGE_ID_OFFSET)
    }

    /// The log-sequence-number in the header.
    pub fn get_lsn(&self) -> (lsn: u64)
        ensures
            lsn == self@.lsn(),
    {
        read_u64(&self.data, LSN_OFFSET)
    }

    /// The free-space pointer in the header.
    pub fn get_free_space_pointer(&self) -> (pointer: u32)
        ensures
            pointer == self@.free_space_pointer(),
    {
        read_u32(&self.data, FREE_SPACE_POINTER_OFFSET)
    }

    /// Number of outstanding pins.
    pub fn get_pin_count(&self) -> (count: u32)
        ensures
            count == self@.pin_count,
    {
        self.pin_count
    }

    /// Whether at least one pin is outstanding.
    pub fn is_pinned(&self) -> (pinned: bool)
        ensures
            pinned == (self@.pin_count > 0),
    {
        self.pin_count > 0
    }

    /// Whether the buffer differs from what was last stored.
    pub fn is_dirty(&self) -> (dirty: bool)
        ensures
            dirty == self@.is_dirty,
    {
        self.is_dirty
    }

    /// Number of bytes from the free-space pointer to the end of the page.
    pub fn get_free_space(&self) -> (free: usize)
        requires
            self.wf(),
        ensures
            free == self@.free_space(),
    {
        PAGE_SIZE - self.get_free_space_pointer() as usize
    }

    /// The whole buffer, header included.
    pub fn get_data(&self) -> (data: &[u8; PAGE_SIZE])
        ensures
            data@ == self@.bytes,
    {
        &self.data
    }

    /// The whole buffer, header included, for writing. What the caller
    /// leaves in it becomes the page's bytes; the bookkeeping is untouched.
    pub fn get_data_mut(&mut self) -> (data: &mut [u8; PAGE_SIZE])
        ensures
            data@ == old(self)@.bytes,
            final(self)@ == old(self)@.with_bytes(final(data)@),
    {
        &mut self.data
    }

    /// The bytes after the header.
    pub fn get_data_segment(&self) -> (segment: &[u8])
        ensures
            segment@ == self@.data_segment(),
    {
        &self.data[HEADER_SIZE..PAGE_SIZE]
    }

    /// The bytes after the header, for writing. What the caller leaves in
    /// them becomes the page's data region; the header and the bookkeeping
    /// are untouched.
    pub fn get_data_segment_mut(&mut self) -> (segment: &mut [u8])
        ensures
            segment@ == old(self)@.data_segment(),
            final(self)@ == old(self)@.with_bytes(
                old(self)@.bytes.subrange(0, HEADER_SIZE as int) + final(segment)@,
            ),
    {
        let whole: &mut [u8] = &mut self.data;
        let (_, segment) = whole.split_at_mut(HEADER_SIZE);
        segment
    }

    /// Binds the buffer to `page_id`, in the bookkeeping and in the header.
    pub fn set_page_id(&mut self, page_id: u64)
        ensures
            final(self)@ == (PageView {
                bytes: overwrite(old(self)@.bytes, PAGE_ID_OFFSET as int, u64_le_bytes(page_id)),
                page_id: Some(page_id),
                ..old(self)@
            }),
            final(self)@.stored_page_id() == page_id,
    {
        self.page_id = Some(page_id);
        write_u64(&mut self.data, PAGE_ID_OFFSET, page_id);
        proof {
            lemma_u64_written_is_read(old(self)@.bytes, PAGE_ID_OFFSET as int, page_id);
        }
    }

    /// Stores a log-sequence-number in the header.
    pub fn set_lsn(&mut self, lsn: u64)
        ensures
            final(self)@ == old(self)@.with_bytes(
                overwrite(old(self)@.bytes, LSN_OFFSET as int, u64_le_bytes(lsn)),
            ),
            final(self)@.lsn() == lsn,
    {
        write_u64(&mut self.data, LSN_OFFSET, lsn);
        proof {
            lemma_u64_written_is_read(old(self)@.bytes, LSN_OFFSET as int, lsn);
        }
    }

    /// Stores a free-space pointer in the header, whatever its value. The
    /// page is well formed afterwards only if the pointer lies between the
    /// end of the header and the end of the page.
    pub fn set_free_space_pointer(&mut self, pointer: u32)
        ensures
            final(self)@ == old(self)@.with_bytes(
                overwrite(
                    old(self)@.bytes,
                    FREE_SPACE_POINTER_OFFSET as int,
                    u32_le_bytes(pointer),
                ),
            ),
            final(self)@.free_space_pointer() == pointer,
    {
        write_u32(&mut self.data, FREE_SPACE_POINTER_OFFSET, pointer);
        proof {
            lemma_u32_written_is_read(
                old(self)@.bytes,
                FREE_SPACE_POINTER_OFFSET as int,
                pointer,
            );
        }
    }

    /// Sets the number of outstanding pins.
    pub fn set_pin_count(&mut self, count: u32)
        ensures
            final(self)@ == (PageView { pin_count: count as nat, ..old(self)@ }),
    {
        self.pin_count = count;
    }

    /// Sets or clears the dirty flag.
    pub fn set_dirty(&mut self, dirty: bool)
        ensures
            final(self)@ == (PageView { is_dirty: dirty, ..old(self)@ }),
    {
        self.is_dirty = dirty;
    }

    /// Adds one pin.
    pub fn pin(&mut self)
        requires
            old(self).pin_count < u32::MAX,
        ensures
            final(self)@ == (PageView { pin_count: old(self)@.pin_count + 1, ..old(self)@ }),
    {
        self.pin_count += 1;
    }

    /// Takes one pin away. A page without pins cannot be unpinned.
    pub fn unpin(&mut self) -> (done: bool)
        requires
            old(self).pin_count > 0,
        ensures
            done,
            final(self)@ == (PageView {
                pin_count: (old(self)@.pin_count - 1) as nat,
                ..old(self)@
            }),
    {
        self.pin_count -= 1;
        true
    }

    /// Whether `bytes_needed` bytes fit behind the free-space pointer.
    pub fn has_room(&self, bytes_needed: usize) -> (room: bool)
        requires
            self.wf(),
        ensures
            room == (bytes_needed <= self@.free_space()),
    {
        self.get_free_space() >= bytes_needed
    }

    /// Reserves `size` bytes behind the free-space pointer. Returns the
    /// offset of the reserved bytes, or `None`, with the page unchanged, if
    /// they do not fit. Nothing is ever given back.
    pub fn allocate(&mut self, size: usize) -> (offset: Option<u32>)
        requires
            old(self).wf(),
        ensures
            offset == old(self)@.allocation(size as nat),
            final(self)@ == old(self)@.allocate(size as nat),
            final(self).wf(),
            offset is Some ==> final(self)@.free_space_pointer() == old(
                self,
            )@.free_space_pointer() + size,
    {
        if !self.has_room(size) {
            return None;
        }
        let offset = self.get_free_space_pointer();
        let moved = offset + size as u32;
        write_u32(&mut self.data, FREE_SPACE_POINTER_OFFSET, moved);
        proof {
            lemma_u32_written_is_read(old(self)@.bytes, FREE_SPACE_POINTER_OFFSET as int, moved);
        }
        Some(offset)
    }

    /// Empties the page: the header is written anew, keeping only the stored
    /// page identifier and page type, the data region is zeroed, and the
    /// page is left not dirty, not pinned, with its reference bit clear.
    pub fn reset(&mut self)
        ensures
            final(self)@ == old(self)@.reset(),
            final(self).wf(),
            final(self)@.stored_page_id() == old(self)@.stored_page_id(),
            final(self)@.type_tag() == old(self)@.type_tag(),
            final(self)@.lsn() == 0,
            final(self)@.checksum() == 0,
            final(self)@.free_space_pointer() == HEADER_SIZE,
            final(self)@.item_count() == 0,
            final(self)@.padding() == 0,
            final(self)@.data_segment() == zeros((PAGE_SIZE - HEADER_SIZE) as nat),
            final(self)@.page_id == Some(old(self)@.stored_page_id()),
            !final(self)@.is_dirty,
            final(self)@.pin_count == 0,
            !final(self)@.ref_bit,
    {
        let page_id = read_u64(&self.data, PAGE_ID_OFFSET);
        let type_tag = read_u16(&self.data, PAGE_TYPE_OFFSET);
        self.data = [0u8; PAGE_SIZE];
        store_header(&mut self.data, 0, page_id, 0, HEADER_SIZE as u32, 0, type_tag, 0);
        self.pin_count = 0;
        self.is_dirty = false;
        self.ref_bit = false;
        self.page_id = Some(page_id);
        proof {
            let rest = zeros((PAGE_SIZE - HEADER_SIZE) as nat);
            lemma_header_image_fields(0, page_id, 0, HEADER_SIZE as u32, 0, type_tag, 0, rest);
            assert(self@.bytes =~= old(self)@.reset().bytes);
            assert(self@.data_segment() =~= rest);
        }
    }

    /// Copies `data` into the buffer from `offset` on and marks the page
    /// dirty. Returns `false`, with the page unchanged, if the bytes would
    /// reach past the end of the page. Whether the range was ever allocated
    /// is not checked.
    pub fn write_at(&mut self, offset: u32, data: &[u8]) -> (written: bool)
        ensures
            written == (offset + data@.len() <= PAGE_SIZE),
            written ==> final(self)@ == old(self)@.write_at(offset as int, data@),
            !written ==> final(self)@ == old(self)@,
    {
        let start = offset as usize;
        let len = data.len();
        if len > PAGE_SIZE || start > PAGE_SIZE - len {
            return false;
        }
        let mut i: usize = 0;
        while i < len
            invariant
                i <= len,
                len == data@.len(),
                start + len <= PAGE_SIZE,
                self.data@ == overwrite(old(self).data@, start as int, data@.subrange(0, i as int)),
                self.page_id == old(self).page_id,
                self.is_dirty == old(self).is_dirty,
                self.pin_count == old(self).pin_count,
                self.ref_bit == old(self).ref_bit,
            decreases len - i,
        {
            self.data[start + i] = data[i];
            i += 1;
            assert(self.data@ =~= overwrite(
                old(self).data@,
                start as int,
                data@.subrange(0, i as int),
            ));
        }
        assert(data@.subrange(0, len as int) =~= data@);
        self.is_dirty = true;
        true
    }

    /// The `length` bytes of the buffer from `offset` on, or `None` if they
    /// would reach past the end of the page.
    pub fn read_at(&self, offset: u32, length: usize) -> (bytes: Option<&[u8]>)
        ensures
            bytes is Some <==> offset + length <= PAGE_SIZE,
            bytes matches Some(b) ==> b@ == self@.bytes.subrange(
                offset as int,
                offset + length,
            ),
    {
        let start = offset as usize;
        if length > PAGE_SIZE || start > PAGE_SIZE - length {
            return None;
        }
        Some(&self.data[start..start + length])
    }
}

impl Default for Page {
    /// An empty node-store page that holds page 0.
    fn default() -> (page: Self)
        ensures
            page@ == PageView::fresh(0, PageType::NodeStore),
            page.wf(),
    {
        Page::new(0, PageType::NodeStore)
    }
}

/// An empty page decodes to the header it was made with, is well formed,
/// and has nothing but zeros behind the header.
pub proof fn lemma_fresh_page(page_id: PageId, page_type: PageType)
    ensures
        PageView::fresh(page_id, page_type).wf(),
        PageView::fresh(page_id, page_type).header() == Some(
            PageHeader::spec_new(page_id, page_type),
        ),
        PageView::fresh(page_id, page_type).free_space_pointer() == HEADER_SIZE,
        PageView::fresh(page_id, page_type).data_segment() == zeros(
            (PAGE_SIZE - HEADER_SIZE) as nat,
        ),
{
    let header = PageHeader::spec_new(page_id, page_type);
    let rest = zeros((PAGE_SIZE - HEADER_SIZE) as nat);
    lemma_header_image_fields(
        header.lsn,
        header.page_id,
        header.checksum,
        header.free_space_pointer,
        header.item_count,
        header.page_type.spec_tag(),
        header._padding,
        rest,
    );
    assert(PageView::fresh(page_id, page_type).data_segment() =~= rest);
}

/// Allocation on an empty page: the first `first` bytes start right behind
/// the header, the next `second` bytes right behind those, and a request
/// for more than is left returns nothing and leaves the page as it was.
pub proof fn lemma_allocations_on_fresh_page(
    page_id: PageId,
    page_type: PageType,
    first: nat,
    second: nat,
)
    requires
        first <= PAGE_SIZE - HEADER_SIZE,
    ensures
        ({
            let empty = PageView::fresh(page_id, page_type);
            let once = empty.allocate(first);
            let twice = once.allocate(second);
            &&& empty.allocation(first) == Some(HEADER_SIZE as u32)
            &&& once.wf()
            &&& once.free_space_pointer() == HEADER_SIZE + first
            &&& second <= PAGE_SIZE - HEADER_SIZE - first ==> once.allocation(second) == Some(
                (HEADER_SIZE + first) as u32,
            ) && twice.free_space_pointer() == HEADER_SIZE + first + second
            &&& second > PAGE_SIZE - HEADER_SIZE - first ==> once.allocation(second) is None
                && twice == once
        }),
{
    let empty = PageView::fresh(page_id, page_type);
    lemma_fresh_page(page_id, page_type);
    lemma_u32_written_is_read(
        empty.bytes,
        FREE_SPACE_POINTER_OFFSET as int,
        (HEADER_SIZE + first) as u32,
    );
    let once = empty.allocate(first);
    if second <= PAGE_SIZE - HEADER_SIZE - first {
        lemma_u32_written_is_read(
            once.bytes,
            FREE_SPACE_POINTER_OFFSET as int,
            (HEADER_SIZE + first + second) as u32,
        );
    }
}

/// Round trip: the bytes of an empty page, loaded again, give a page with
/// the same header, field by field, and the same data region, bound to the
/// same page.
pub proof fn lemma_fresh_page_round_trip(page_id: PageId, page_type: PageType)
    ensures
        ({
            let made = PageView::fresh(page_id, page_type);
            let loaded = PageView::loaded(made.bytes);
            &&& loaded.header() == Some(PageHeader::spec_new(page_id, page_type))
            &&& loaded.header() == made.header()
            &&& loaded.data_segment() == made.data_segment()
            &&& loaded.bytes == made.bytes
            &&& loaded.page_id == made.page_id
            &&& loaded.page_id == Some(page_id)
        }),
{
    lemma_fresh_page(page_id, page_type);
}

/// Stores the seven header fields over the first `HEADER_SIZE` bytes of
/// `data`, the page type as its tag, and leaves the data region alone.
fn store_header(
    data: &mut [u8; PAGE_SIZE],
    lsn: u64,
    page_id: u64,
    checksum: u32,
    free_space_pointer: u32,
    item_count: u32,
    type_tag: u16,
    padding: u16,
)
    ensures
        ({
            let image = header_image(
                lsn,
                page_id,
                checksum,
                free_space_pointer,
                item_count,
                type_tag,
                padding,
            );
            &&& final(data)@ == overwrite(old(data)@, 0, image)
            &&& final(data)@ == image + old(data)@.subrange(HEADER_SIZE as int, PAGE_SIZE as int)
        }),
{
    let ghost before = data@;
    write_u64(data, LSN_OFFSET, lsn);
    write_u64(data, PAGE_ID_OFFSET, page_id);
    write_u32(data, CHECKSUM_OFFSET, checksum);
    write_u32(data, FREE_SPACE_POINTER_OFFSET, free_space_pointer);
    write_u32(data, ITEM_COUNT_OFFSET, item_count);
    write_u16(data, PAGE_TYPE_OFFSET, type_tag);
    write_u16(data, PADDING_OFFSET, padding);
    proof {
        lemma_fields_in_order(
            before,
            u64_le_bytes(lsn),
            u64_le_bytes(page_id),
            u32_le_bytes(checksum),
            u32_le_bytes(free_space_pointer),
            u32_le_bytes(item_count),
            u16_le_bytes(type_tag),
            u16_le_bytes(padding),
        );
        lemma_overwrite_head(
            before,
            header_image(
                lsn,
                page_id,
                checksum,
                free_space_pointer,
                item_count,
                type_tag,
                padding,
            ),
        );
    }
}

/// Writing seven fields one behind the other, from the start of a buffer,
/// is one write of all of them.
proof fn lemma_fields_in_order(
    s: Seq<u8>,
    a: Seq<u8>,
    b: Seq<u8>,
    c: Seq<u8>,
    d: Seq<u8>,
    e: Seq<u8>,
    f: Seq<u8>,
    g: Seq<u8>,
)
    requires
        a.len() == 8,
        b.len() == 8,
        c.len() == 4,
        d.len() == 4,
        e.len() == 4,
        f.len() == 2,
        g.len() == 2,
        s.len() >= HEADER_SIZE,
    ensures
        overwrite(
            overwrite(
                overwrite(
                    overwrite(
                        overwrite(
                            overwrite(overwrite(s, LSN_OFFSET as int, a), PAGE_ID_OFFSET as int, b),
                            CHECKSUM_OFFSET as int,
                            c,
                        ),
                        FREE_SPACE_POINTER_OFFSET as int,
                        d,
                    ),
                    ITEM_COUNT_OFFSET as int,
                    e,
                ),
                PAGE_TYPE_OFFSET as int,
                f,
            ),
            PADDING_OFFSET as int,
            g,
        ) == overwrite(s, 0, a + b + c + d + e + f + g),
{
    lemma_overwrite_in_order(s, 0, a, b);
    lemma_overwrite_in_order(s, 0, a + b, c);
    lemma_overwrite_in_order(s, 0, a + b + c, d);
    lemma_overwrite_in_order(s, 0, a + b + c + d, e);
    lemma_overwrite_in_order(s, 0, a + b + c + d + e, f);
    lemma_overwrite_in_order(s, 0, a + b + c + d + e + f, g);
}

/// Every field of a header is read back from the bytes that store it,
/// whatever follows them.
pub proof fn lemma_header_image_fields(
    lsn: u64,
    page_id: u64,
    checksum: u32,
    free_space_pointer: u32,
    item_count: u32,
    type_tag: u16,
    padding: u16,
    rest: Seq<u8>,
)
    ensures
        ({
            let image = header_image(
                lsn,
                page_id,
                checksum,
                free_space_pointer,
                item_count,
                type_tag,
                padding,
            );
            let bytes = image + rest;
            &&& image.len() == HEADER_SIZE
            &&& le_u64(bytes, LSN_OFFSET as int) == lsn
            &&& le_u64(bytes, PAGE_ID_OFFSET as int) == page_id
            &&& le_u32(bytes, CHECKSUM_OFFSET as int) == checksum
            &&& le_u32(bytes, FREE_SPACE_POINTER_OFFSET as int) == free_space_pointer
            &&& le_u32(bytes, ITEM_COUNT_OFFSET as int) == item_count
            &&& le_u16(bytes, PAGE_TYPE_OFFSET as int) == type_tag
            &&& le_u16(bytes, PADDING_OFFSET as int) == padding
        }),
{
    let image = header_image(
        lsn,
        page_id,
        checksum,
        free_space_pointer,
        item_count,
        type_tag,
        padding,
    );
    let bytes = image + rest;
    let filler = zeros(HEADER_SIZE as nat);
    let a = overwrite(filler, LSN_OFFSET as int, u64_le_bytes(lsn));
    let b = overwrite(a, PAGE_ID_OFFSET as int, u64_le_bytes(page_id));
    let c = overwrite(b, CHECKSUM_OFFSET as int, u32_le_bytes(checksum));
    let d = overwrite(c, FREE_SPACE_POINTER_OFFSET as int, u32_le_bytes(free_space_pointer));
    let e = overwrite(d, ITEM_COUNT_OFFSET as int, u32_le_bytes(item_count));
    let f = overwrite(e, PAGE_TYPE_OFFSET as int, u16_le_bytes(type_tag));
    let g = overwrite(f, PADDING_OFFSET as int, u16_le_bytes(padding));
    assert(image =~= g);
    assert forall|i: int| 0 <= i < HEADER_SIZE implies bytes[i] == g[i] by {}
}

} // verus!
