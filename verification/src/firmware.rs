//! Firmware images, and how one is made from an Intel HEX document.

use ihex::reader::Reader;
use ihex::record::Record;
use vstd::prelude::*;

verus! {

/// A firmware image as a mathematical value.
pub ghost struct Image {
    /// Where in the device's memory the first byte goes.
    pub addr: u32,
    /// The bytes to load.
    pub data: Seq<u8>,
}

/// A firmware image: a load address and the bytes to load there. Its size is
/// the number of those bytes, which always fits in 32 bits.
#[derive(Debug)]
pub struct HexFile {
    addr: u32,
    size: u32,
    buf: Vec<u8>,
}

impl View for HexFile {
    type V = Image;

    closed spec fn view(&self) -> Image {
        Image { addr: self.addr, data: self.buf@ }
    }
}

impl HexFile {
    #[verifier::type_invariant]
    spec fn size_is_length(self) -> bool {
        self.size as nat == self.buf@.len()
    }

    /// Makes an image of `buf`, to be loaded at `addr`. There is no image of
    /// more bytes than a 32-bit size can count.
    pub fn new(addr: u32, buf: Vec<u8>) -> (r: Option<HexFile>)
        ensures
            r is Some <==> buf@.len() <= u32::MAX,
            r matches Some(image) ==> image@ == (Image { addr, data: buf@ }),
    {
        if buf.len() <= 0xFFFF_FFFF {
            Some(HexFile { addr, size: buf.len() as u32, buf })
        } else {
            None
        }
    }

    /// The load address.
    pub fn addr(&self) -> (r: u32)
        ensures
            r == self@.addr,
    {
        self.addr
    }

    /// The number of bytes in the image.
    pub fn size(&self) -> (r: u32)
        ensures
            r == self@.data.len(),
    {
        proof {
            use_type_invariant(self);
        }
        self.size
    }

    /// The bytes of the image.
    pub fn buf(&self) -> (r: &Vec<u8>)
        ensures
            r@ == self@.data,
            r@.len() <= u32::MAX,
    {
        proof {
            use_type_invariant(self);
        }
        &self.buf
    }

    /// Gives up the image for its bytes.
    pub fn into_buf(self) -> (r: Vec<u8>)
        ensures
            r@ == self@.data,
            r@.len() <= u32::MAX,
    {
        proof {
            use_type_invariant(&self);
        }
        self.buf
    }
}

/// Why a document gave no image.
#[derive(Debug, PartialEq, Eq)]
pub enum Error {
    /// A line is no Intel HEX record. `line` counts the lines that are not
    /// empty, from 0, up to the one at fault.
    Parse { line: usize },
    /// The document has no data record, so there is no offset to load at.
    NoData,
    /// The extended addresses add up to more than 16 bits hold.
    AddressOverflow,
    /// The data records hold more bytes than a 32-bit size can count.
    TooLarge,
}

/// One record of an Intel HEX document.
#[derive(Debug, PartialEq, Eq)]
pub enum HexRecord {
    /// Bytes to load, with the low 16 bits of their address.
    Data { offset: u16, value: Vec<u8> },
    /// The end of the document.
    EndOfFile,
    /// Bits 4 to 19 of a segment base address.
    ExtendedSegmentAddress(u16),
    /// The start address as a CS:IP pair.
    StartSegmentAddress { cs: u16, ip: u16 },
    /// The upper 16 bits of a linear address.
    ExtendedLinearAddress(u16),
    /// The start address as a linear address.
    StartLinearAddress(u32),
}

/// One record of an Intel HEX document as a mathematical value.
pub ghost enum RecordView {
    /// Bytes to load, with the low 16 bits of their address.
    Data { offset: u16, value: Seq<u8> },
    /// The end of the document.
    EndOfFile,
    /// Bits 4 to 19 of a segment base address.
    ExtendedSegmentAddress(u16),
    /// The start address as a CS:IP pair.
    StartSegmentAddress { cs: u16, ip: u16 },
    /// The upper 16 bits of a linear address.
    ExtendedLinearAddress(u16),
    /// The start address as a linear address.
    StartLinearAddress(u32),
}

impl View for HexRecord {
    type V = RecordView;

    open spec fn view(&self) -> RecordView {
        match *self {
            HexRecord::Data { offset, value } => RecordView::Data { offset, value: value@ },
            HexRecord::EndOfFile => RecordView::EndOfFile,
            HexRecord::ExtendedSegmentAddress(a) => RecordView::ExtendedSegmentAddress(a),
            HexRecord::StartSegmentAddress { cs, ip } => RecordView::StartSegmentAddress {
                cs,
                ip,
            },
            HexRecord::ExtendedLinearAddress(a) => RecordView::ExtendedLinearAddress(a),
            HexRecord::StartLinearAddress(a) => RecordView::StartLinearAddress(a),
        }
    }
}

/// The items of a document as mathematical values: each record by its view,
/// and `None` for a line that is no record.
pub open spec fn views(records: Seq<Option<HexRecord>>) -> Seq<Option<RecordView>> {
    Seq::new(
        records.len(),
        |i: int|
            match records[i] {
                Some(record) => Some(record@),
                None => None,
            },
    )
}

/// What the reader of the `ihex` crate yields for a document, item by item:
/// the record of each line that is not empty, or `None` for a line that is
/// no record. The reader yields nothing after an end-of-file record, nor
/// after a line that is no record.
pub uninterp spec fn ihex_records(text: Seq<char>) -> Seq<Option<RecordView>>;

/// Reads a document with `ihex::reader::Reader::new` and collects what it
/// yields, each record written in the library's own type and each failure
/// as `None`. The result is named, not described: the format is the
/// reader's business.
#[verifier::external_body]
fn read_records(data: &str) -> (records: Vec<Option<HexRecord>>)
    ensures
        views(records@) == ihex_records(data@),
{
    Reader::new(data).map(|item| match item {
        Ok(Record::Data { offset, value }) => Some(HexRecord::Data { offset, value }),
        Ok(Record::EndOfFile) => Some(HexRecord::EndOfFile),
        Ok(Record::ExtendedSegmentAddress(a)) => Some(HexRecord::ExtendedSegmentAddress(a)),
        Ok(Record::StartSegmentAddress { cs, ip }) => Some(HexRecord::StartSegmentAddress { cs, ip }),
        Ok(Record::ExtendedLinearAddress(a)) => Some(HexRecord::ExtendedLinearAddress(a)),
        Ok(Record::StartLinearAddress(a)) => Some(HexRecord::StartLinearAddress(a)),
        Err(_) => None,
    }).collect()
}

/// The number of items before the first `None`: the place of the first line
/// that is no record, or the length where every line is one.
pub open spec fn first_bad(records: Seq<Option<RecordView>>) -> int
    decreases records.len(),
{
    if records.len() == 0 || records[0] is None {
        0
    } else {
        1 + first_bad(records.skip(1))
    }
}

/// What an item adds to the upper half of the load address: the value of an
/// extended address record, linear or segment.
pub open spec fn high_part(item: Option<RecordView>) -> int {
    match item {
        Some(RecordView::ExtendedLinearAddress(a)) => a as int,
        Some(RecordView::ExtendedSegmentAddress(a)) => a as int,
        _ => 0,
    }
}

/// The values of all extended address records, added up.
pub open spec fn high_sum(records: Seq<Option<RecordView>>) -> int
    decreases records.len(),
{
    if records.len() == 0 {
        0
    } else {
        high_sum(records.drop_last()) + high_part(records.last())
    }
}

/// The bytes that an item carries: those of a data record.
pub open spec fn bytes_of(item: Option<RecordView>) -> Seq<u8> {
    match item {
        Some(RecordView::Data { offset, value }) => value,
        _ => Seq::empty(),
    }
}

/// The bytes of all data records, one after the other as they stand in the
/// document, whatever their offsets.
pub open spec fn payload(records: Seq<Option<RecordView>>) -> Seq<u8>
    decreases records.len(),
{
    if records.len() == 0 {
        Seq::empty()
    } else {
        payload(records.drop_last()) + bytes_of(records.last())
    }
}

/// The offset of the first data record, if there is a data record.
pub open spec fn first_offset(records: Seq<Option<RecordView>>) -> Option<u16>
    decreases records.len(),
{
    if records.len() == 0 {
        None
    } else {
        match first_offset(records.drop_last()) {
            Some(offset) => Some(offset),
            None => match records.last() {
                Some(RecordView::Data { offset, value }) => Some(offset),
                _ => None,
            },
        }
    }
}

/// The image that a document's records make, or why they make none.
///
/// The upper half of the load address is the sum of the extended address
/// records, the lower half the offset of the first data record, and the data
/// the bytes of the data records in document order.
pub open spec fn decode(records: Seq<Option<RecordView>>) -> Result<Image, Error> {
    if first_bad(records) < records.len() {
        Err(Error::Parse { line: first_bad(records) as usize })
    } else if first_offset(records) is None {
        Err(Error::NoData)
    } else if high_sum(records) > 0xFFFF {
        Err(Error::AddressOverflow)
    } else if payload(records).len() > u32::MAX {
        Err(Error::TooLarge)
    } else {
        Ok(
            Image {
                addr: (high_sum(records) * 0x1_0000 + first_offset(records)->0) as u32,
                data: payload(records),
            },
        )
    }
}

/// A decoder's result with the image as a mathematical value.
pub open spec fn decoded(r: Result<HexFile, Error>) -> Result<Image, Error> {
    match r {
        Ok(image) => Ok(image@),
        Err(e) => Err(e),
    }
}

/// A sum of extended addresses is not negative.
pub proof fn lemma_high_sum_nonnegative(records: Seq<Option<RecordView>>)
    ensures
        high_sum(records) >= 0,
    decreases records.len(),
{
    if records.len() > 0 {
        lemma_high_sum_nonnegative(records.drop_last());
    }
}

/// The two halves of a decoded image's load address: the upper 16 bits are
/// the sum of the extended addresses, the lower 16 bits the offset of the
/// first data record. The image's bytes are those of the data records, and
/// every line of such a document is a record.
pub proof fn lemma_decoded_image(records: Seq<Option<RecordView>>)
    requires
        decode(records) is Ok,
    ensures
        decode(records)->Ok_0.addr / 0x1_0000 == high_sum(records),
        decode(records)->Ok_0.addr % 0x1_0000 == first_offset(records)->0,
        decode(records)->Ok_0.data == payload(records),
        first_offset(records) is Some,
        forall|i: int| 0 <= i < records.len() ==> records[i] is Some,
{
    lemma_high_sum_nonnegative(records);
    assert forall|i: int| 0 <= i < records.len() implies records[i] is Some by {
        lemma_first_bad_is_bad(records);
    }
}

/// The first bad line is a bad line, where it is a line at all, and the
/// lines before it are records.
pub proof fn lemma_first_bad_is_bad(records: Seq<Option<RecordView>>)
    ensures
        0 <= first_bad(records) <= records.len(),
        first_bad(records) < records.len() ==> records[first_bad(records)] is None,
        forall|i: int| 0 <= i < first_bad(records) ==> records[i] is Some,
    decreases records.len(),
{
    if records.len() > 0 && records[0] is Some {
        let rest = records.skip(1);
        lemma_first_bad_is_bad(rest);
        assert forall|i: int| 0 <= i < first_bad(records) implies records[i] is Some by {
            if i > 0 {
                assert(records[i] == rest[i - 1]);
            }
        }
    }
}

impl HexFile {
    /// Makes the image of a document from the document's records.
    pub fn from_records(records: &Vec<Option<HexRecord>>) -> (r: Result<HexFile, Error>)
        ensures
            decoded(r) == decode(views(records@)),
    {
        let mut high: u32 = 0;
        let mut overflow = false;
        let mut low: Option<u16> = None;
        let mut buf: Vec<u8> = Vec::new();
        let ghost items = views(records@);
        let mut i: usize = 0;
        while i < records.len()
            invariant
                i <= records.len(),
                items == views(records@),
                forall|j: int| 0 <= j < i ==> items[j] is Some,
                !overflow ==> high == high_sum(items.take(i as int)) && high <= 0xFFFF,
                overflow ==> high_sum(items.take(i as int)) > 0xFFFF,
                low == first_offset(items.take(i as int)),
                buf@ == payload(items.take(i as int)),
            decreases records.len() - i,
        {
            proof {
                assert(items.take(i + 1).drop_last() =~= items.take(i as int));
                assert(items.take(i + 1).last() == items[i as int]);
            }
            match &records[i] {
                None => {
                    proof {
                        lemma_first_bad_is_bad(items);
                    }
                    return Err(Error::Parse { line: i });
                },
                Some(HexRecord::Data { offset, value }) => {
                    if low.is_none() {
                        low = Some(*offset);
                    }
                    let mut k: usize = 0;
                    while k < value.len()
                        invariant
                            k <= value.len(),
                            buf@ == payload(items.take(i as int)) + value@.take(k as int),
                        decreases value.len() - k,
                    {
                        buf.push(value[k]);
                        k += 1;
                        assert(value@.take(k as int) =~= value@.take(k - 1).push(value@[k - 1]));
                    }
                    assert(value@.take(k as int) =~= value@);
                },
                Some(HexRecord::ExtendedLinearAddress(a)) => {
                    if !overflow {
                        if high + *a as u32 > 0xFFFF {
                            overflow = true;
                        } else {
                            high = high + *a as u32;
                        }
                    }
                },
                Some(HexRecord::ExtendedSegmentAddress(a)) => {
                    if !overflow {
                        if high + *a as u32 > 0xFFFF {
                            overflow = true;
                        } else {
                            high = high + *a as u32;
                        }
                    }
                },
                Some(_) => {},
            }
            i += 1;
        }
        proof {
            assert(items.take(i as int) =~= items);
            lemma_first_bad_is_bad(items);
        }
        if low.is_none() {
            return Err(Error::NoData);
        }
        if overflow {
            return Err(Error::AddressOverflow);
        }
        let addr: u32 = high * 0x1_0000 + low.unwrap() as u32;
        match HexFile::new(addr, buf) {
            Some(image) => Ok(image),
            None => Err(Error::TooLarge),
        }
    }
}

/// Decodes an Intel HEX document into the image it describes.
pub fn parse_hex_buffer(data: &str) -> (r: Result<HexFile, Error>)
    ensures
        decoded(r) == decode(ihex_records(data@)),
{
    let records = read_records(data);
    HexFile::from_records(&records)
}

} // verus!
