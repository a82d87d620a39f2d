//! The disk manager: superblock layout, the formatting protocol and the
//! reading of the header region, on device bytes held in memory.
use vstd::prelude::*;
use crate::codec::{bytes_to_u64, le_bytes, le_value, lemma_i64_round_trip, lemma_u64_round_trip, u64_to_bytes};
use crate::error::StoreError;
use crate::header::Header;

verus! {

/// Marks a formatted device in its first eight bytes.
pub const SIGNATURE: u64 = 0x0510D05E;

/// The superblock format this library writes.
pub const VERSION: u64 = 1;

/// Length of the superblock, and offset of the header body.
pub const SUPERBLOCK_SIZE: u64 = 48;

/// The six fields at the start of a device.
#[derive(Debug, Clone, Copy, PartialEq, Eq, Structural)]
pub struct Superblock {
    pub signature: u64,
    pub version: u64,
    pub create: i64,
    pub headeroffset: u64,
    pub headersize: u64,
    pub headerspace: u64,
}

/// The 48 bytes that hold `sb`, each field in the codec's order.
pub open spec fn superblock_bytes(sb: Superblock) -> Seq<u8> {
    le_bytes(sb.signature) + le_bytes(sb.version) + le_bytes(sb.create as u64) + le_bytes(sb.headeroffset)
        + le_bytes(sb.headersize) + le_bytes(sb.headerspace)
}

/// The superblock read from the first 48 bytes of `b`.
pub open spec fn superblock_of(b: Seq<u8>) -> Superblock {
    Superblock {
        signature: le_value(b.subrange(0, 8)),
        version: le_value(b.subrange(8, 16)),
        create: le_value(b.subrange(16, 24)) as i64,
        headeroffset: le_value(b.subrange(24, 32)),
        headersize: le_value(b.subrange(32, 40)),
        headerspace: le_value(b.subrange(40, 48)),
    }
}

/// The superblock written when a device is formatted at time `now` with a
/// header body of `headersize` bytes.
pub open spec fn initial_superblock(now: i64, headersize: u64, headerspace: u64) -> Superblock {
    Superblock { signature: SIGNATURE, version: VERSION, create: now, headeroffset: SUPERBLOCK_SIZE, headersize, headerspace }
}

/// `b` starts with the signature.
pub open spec fn formatted(b: Seq<u8>) -> bool {
    b.len() >= 8 && le_value(b.subrange(0, 8)) == SIGNATURE
}

/// The characters of `b` read as UTF-8, or `None` where `b` is not UTF-8.
pub uninterp spec fn utf8_decoded(b: Seq<u8>) -> Option<Seq<char>>;

/// What reading the superblock and the header body of device bytes `b` gives.
pub open spec fn read_result(b: Seq<u8>) -> Result<(Superblock, Seq<char>), StoreError> {
    if b.len() < SUPERBLOCK_SIZE {
        Err(StoreError::IOFailure)
    } else {
        let sb = superblock_of(b);
        if sb.headeroffset + sb.headersize > b.len() {
            Err(StoreError::IOFailure)
        } else {
            match utf8_decoded(b.subrange(sb.headeroffset as int, sb.headeroffset + sb.headersize)) {
                Some(t) => Ok((sb, t)),
                None => Err(StoreError::HeaderDecodingFailure),
            }
        }
    }
}

/// Relies on `std::str::from_utf8`: the text is returned exactly where the
/// bytes are UTF-8, and it depends on the bytes alone.
#[verifier::external_body]
fn utf8_text(b: &[u8]) -> (r: Option<String>)
    ensures
        r matches Some(s) ==> utf8_decoded(b@) == Some(s@),
        r is None ==> utf8_decoded(b@) is None,
{
    match std::str::from_utf8(b) {
        Ok(s) => Some(s.to_string()),
        Err(_) => None,
    }
}

/// Reading the bytes of a superblock gives the superblock back.
pub proof fn lemma_superblock_round_trip(sb: Superblock, rest: Seq<u8>)
    ensures
        superblock_bytes(sb).len() == SUPERBLOCK_SIZE,
        superblock_of(superblock_bytes(sb) + rest) == sb,
        formatted(superblock_bytes(sb) + rest) <==> sb.signature == SIGNATURE,
{
    lemma_u64_round_trip(sb.signature);
    lemma_u64_round_trip(sb.version);
    lemma_u64_round_trip(sb.create as u64);
    lemma_i64_round_trip(sb.create);
    lemma_u64_round_trip(sb.headeroffset);
    lemma_u64_round_trip(sb.headersize);
    lemma_u64_round_trip(sb.headerspace);
    let b = superblock_bytes(sb) + rest;
    assert(b.subrange(0, 8) =~= le_bytes(sb.signature));
    assert(b.subrange(8, 16) =~= le_bytes(sb.version));
    assert(b.subrange(16, 24) =~= le_bytes(sb.create as u64));
    assert(b.subrange(24, 32) =~= le_bytes(sb.headeroffset));
    assert(b.subrange(32, 40) =~= le_bytes(sb.headersize));
    assert(b.subrange(40, 48) =~= le_bytes(sb.headerspace));
}

fn push_bytes(v: &mut Vec<u8>, a: [u8; 8])
    ensures
        final(v)@ == old(v)@ + a@,
{
    let mut i: usize = 0;
    while i < 8
        invariant
            i <= 8,
            v@ == old(v)@ + a@.subrange(0, i as int),
        decreases 8 - i,
    {
        v.push(a[i]);
        i += 1;
        assert(a@.subrange(0, i as int) =~= a@.subrange(0, i - 1) + seq![a@[i - 1]]);
    }
    assert(a@.subrange(0, 8) =~= a@);
}

fn read_u64_at(buf: &[u8], pos: usize) -> (r: u64)
    requires
        pos + 8 <= buf@.len(),
    ensures
        r == le_value(buf@.subrange(pos as int, pos + 8)),
{
    let a: [u8; 8] = [buf[pos], buf[pos + 1], buf[pos + 2], buf[pos + 3], buf[pos + 4], buf[pos + 5], buf[pos + 6], buf[pos + 7]];
    assert(a@ =~= buf@.subrange(pos as int, pos + 8));
    bytes_to_u64(&a)
}

impl Superblock {
    /// The 48 bytes that hold this superblock.
    pub fn to_bytes(&self) -> (r: Vec<u8>)
        ensures
            r@ == superblock_bytes(*self),
    {
        let mut v: Vec<u8> = Vec::new();
        push_bytes(&mut v, u64_to_bytes(self.signature));
        push_bytes(&mut v, u64_to_bytes(self.version));
        push_bytes(&mut v, u64_to_bytes(self.create as u64));
        push_bytes(&mut v, u64_to_bytes(self.headeroffset));
        push_bytes(&mut v, u64_to_bytes(self.headersize));
        push_bytes(&mut v, u64_to_bytes(self.headerspace));
        assert(v@ =~= superblock_bytes(*self));
        v
    }

    /// The superblock in the first 48 bytes of `buf`; fails with `IOFailure`
    /// where `buf` is shorter.
    pub fn from_bytes(buf: &[u8]) -> (r: Result<Superblock, StoreError>)
        ensures
            buf@.len() < SUPERBLOCK_SIZE ==> r == Err::<Superblock, StoreError>(StoreError::IOFailure),
            buf@.len() >= SUPERBLOCK_SIZE ==> r == Ok::<Superblock, StoreError>(superblock_of(buf@)),
    {
        if buf.len() < 48 {
            return Err(StoreError::IOFailure);
        }
        let signature = read_u64_at(buf, 0);
        let version = read_u64_at(buf, 8);
        let create = read_u64_at(buf, 16) as i64;
        let headeroffset = read_u64_at(buf, 24);
        let headersize = read_u64_at(buf, 32);
        let headerspace = read_u64_at(buf, 40);
        Ok(Superblock { signature, version, create, headeroffset, headersize, headerspace })
    }
}

/// Whether `buf` starts with the signature of a formatted device.
pub fn is_formatted(buf: &[u8]) -> (r: bool)
    ensures
        r == formatted(buf@),
{
    buf.len() >= 8 && read_u64_at(buf, 0) == SIGNATURE
}

/// The header body as text; fails with `HeaderDecodingFailure` where the
/// bytes are not UTF-8.
pub fn header_text(body: &[u8]) -> (r: Result<String, StoreError>)
    ensures
        utf8_decoded(body@) is None <==> r == Err::<String, StoreError>(StoreError::HeaderDecodingFailure),
        utf8_decoded(body@) is Some <==> r is Ok,
        r matches Ok(s) ==> utf8_decoded(body@) == Some(s@),
{
    match utf8_text(body) {
        Some(s) => Ok(s),
        None => Err(StoreError::HeaderDecodingFailure),
    }
}

/// The bytes to write at offset 0 when formatting at time `now`: the
/// superblock, then the serialized header `text`. Fails with `OutOfSpace`
/// where the text is longer than the header reservation.
pub fn format_bytes(now: i64, headerspace: u64, text: &[u8]) -> (r: Result<Vec<u8>, StoreError>)
    ensures
        text@.len() > headerspace <==> r == Err::<Vec<u8>, StoreError>(StoreError::OutOfSpace),
        text@.len() <= headerspace <==> r is Ok,
        r matches Ok(v) ==> v@ == superblock_bytes(initial_superblock(now, text@.len() as u64, headerspace)) + text@,
{
    if text.len() as u64 > headerspace {
        return Err(StoreError::OutOfSpace);
    }
    let sb = Superblock {
        signature: SIGNATURE,
        version: VERSION,
        create: now,
        headeroffset: SUPERBLOCK_SIZE,
        headersize: text.len() as u64,
        headerspace,
    };
    let mut v = sb.to_bytes();
    let ghost start = v@;
    let mut i: usize = 0;
    while i < text.len()
        invariant
            i <= text@.len(),
            v@ == start + text@.subrange(0, i as int),
        decreases text@.len() - i,
    {
        v.push(text[i]);
        i += 1;
        assert(text@.subrange(0, i as int) =~= text@.subrange(0, i - 1) + seq![text@[i - 1]]);
    }
    assert(text@.subrange(0, text@.len() as int) =~= text@);
    Ok(v)
}

/// The bytes of a device image after formatting writes `written` at its start.
pub open spec fn overwrite(image: Seq<u8>, written: Seq<u8>) -> Seq<u8> {
    written + image.subrange(written.len() as int, image.len() as int)
}

/// Formats the device image `image` at time `now`: writes the superblock
/// and the header `text` at its start and returns the superblock. Fails with
/// `OutOfSpace` as `format_bytes` does, and with `IOFailure` where the
/// image cannot hold both; on failure the image is unchanged.
pub fn format_image(image: &mut Vec<u8>, now: i64, headerspace: u64, text: &[u8]) -> (r: Result<Superblock, StoreError>)
    ensures
        text@.len() > headerspace ==> r == Err::<Superblock, StoreError>(StoreError::OutOfSpace),
        text@.len() <= headerspace && SUPERBLOCK_SIZE + text@.len() > old(image)@.len()
            ==> r == Err::<Superblock, StoreError>(StoreError::IOFailure),
        r is Err ==> final(image)@ == old(image)@,
        r is Ok <==> text@.len() <= headerspace && SUPERBLOCK_SIZE + text@.len() <= old(image)@.len(),
        r matches Ok(sb) ==> sb == initial_superblock(now, text@.len() as u64, headerspace)
            && final(image)@ == overwrite(old(image)@, superblock_bytes(sb) + text@),
{
    let bytes = match format_bytes(now, headerspace, text) {
        Ok(b) => b,
        Err(e) => return Err(e),
    };
    if bytes.len() > image.len() {
        return Err(StoreError::IOFailure);
    }
    let ghost old_image = image@;
    let mut i: usize = 0;
    while i < bytes.len()
        invariant
            i <= bytes@.len(),
            bytes@.len() <= old_image.len(),
            image@.len() == old_image.len(),
            forall|k: int| 0 <= k < i ==> #[trigger] image@[k] == bytes@[k],
            forall|k: int| i <= k < old_image.len() ==> #[trigger] image@[k] == old_image[k],
        decreases bytes@.len() - i,
    {
        image.set(i, bytes[i]);
        i += 1;
    }
    let sb = Superblock {
        signature: SIGNATURE,
        version: VERSION,
        create: now,
        headeroffset: SUPERBLOCK_SIZE,
        headersize: text.len() as u64,
        headerspace,
    };
    assert(image@ =~= overwrite(old_image, superblock_bytes(sb) + text@));
    Ok(sb)
}

/// Reads the superblock and the header body of the device image `image`.
/// Fails with `IOFailure` where the image is shorter than a superblock or
/// the body lies past its end, and with `HeaderDecodingFailure` where the
/// body is not UTF-8.
pub fn read_image(image: &[u8]) -> (r: Result<(Superblock, String), StoreError>)
    ensures
        r is Err ==> r == Err::<(Superblock, String), StoreError>(read_result(image@)->Err_0) && read_result(image@) is Err,
        r matches Ok((sb, t)) ==> read_result(image@) == Ok::<(Superblock, Seq<char>), StoreError>((sb, t@)),
{
    let sb = match Superblock::from_bytes(image) {
        Ok(sb) => sb,
        Err(e) => return Err(e),
    };
    if sb.headeroffset as u128 + sb.headersize as u128 > image.len() as u128 {
        return Err(StoreError::IOFailure);
    }
    let start = sb.headeroffset as usize;
    let end = start + sb.headersize as usize;
    let mut body: Vec<u8> = Vec::new();
    let mut i: usize = start;
    while i < end
        invariant
            start <= i <= end,
            end <= image@.len(),
            body@ == image@.subrange(start as int, i as int),
        decreases end - i,
    {
        body.push(image[i]);
        i += 1;
        assert(image@.subrange(start as int, i as int) =~= image@.subrange(start as int, i - 1) + seq![image@[i - 1]]);
    }
    match header_text(body.as_slice()) {
        Ok(t) => Ok((sb, t)),
        Err(e) => Err(e),
    }
}

/// The image after an open, and what the open returns: an image carrying
/// the signature is only read; another is formatted first, with header
/// reservation `header_space` (required then), time `now` and header text
/// `text`, and then read.
pub open spec fn open_outcome(image: Seq<u8>, header_space: Option<i64>, now: i64, text: Seq<u8>) -> (Seq<u8>, Result<(Superblock, Seq<char>), StoreError>) {
    if formatted(image) {
        (image, read_result(image))
    } else if header_space is None || header_space->Some_0 < 0 {
        (image, Err(StoreError::ConfigMissing))
    } else {
        let hs = header_space->Some_0 as u64;
        if text.len() > hs {
            (image, Err(StoreError::OutOfSpace))
        } else if SUPERBLOCK_SIZE + text.len() > image.len() {
            (image, Err(StoreError::IOFailure))
        } else {
            let after = overwrite(image, superblock_bytes(initial_superblock(now, text.len() as u64, hs)) + text);
            (after, read_result(after))
        }
    }
}

/// Formats the image where it does not carry the signature, then reads it.
/// `header_space` is the configured header reservation, needed only to
/// format; `initial_text` is the serialized header that formatting writes.
pub fn open_image(image: &mut Vec<u8>, header_space: Option<i64>, now: i64, initial_text: &[u8]) -> (r: Result<(Superblock, String), StoreError>)
    ensures
        final(image)@ == open_outcome(old(image)@, header_space, now, initial_text@).0,
        r matches Ok((sb, t)) ==> open_outcome(old(image)@, header_space, now, initial_text@).1
            == Ok::<(Superblock, Seq<char>), StoreError>((sb, t@)),
        r matches Err(e) ==> open_outcome(old(image)@, header_space, now, initial_text@).1
            == Err::<(Superblock, Seq<char>), StoreError>(e),
{
    if !is_formatted(image.as_slice()) {
        let hs = match header_space_of(header_space) {
            Ok(h) => h,
            Err(e) => return Err(e),
        };
        if let Err(e) = format_image(image, now, hs, initial_text) {
            return Err(e);
        }
    }
    read_image(image.as_slice())
}

/// The header reservation from its configured value; fails with
/// `ConfigMissing` where it is absent or negative.
pub fn header_space_of(header_space: Option<i64>) -> (r: Result<u64, StoreError>)
    ensures
        r == if header_space is Some && header_space->Some_0 >= 0 {
            Ok::<u64, StoreError>(header_space->Some_0 as u64)
        } else {
            Err::<u64, StoreError>(StoreError::ConfigMissing)
        },
{
    match header_space {
        Some(h) => if h >= 0 {
            Ok(h as u64)
        } else {
            Err(StoreError::ConfigMissing)
        },
        None => Err(StoreError::ConfigMissing),
    }
}

/// Formatting an image and reading it back gives the superblock that was
/// written and the header text; the image then carries the signature, so a
/// later open reads it without formatting again.
pub proof fn lemma_format_then_read(image: Seq<u8>, now: i64, headerspace: u64, text: Seq<u8>)
    requires
        text.len() <= headerspace,
        SUPERBLOCK_SIZE + text.len() <= image.len(),
    ensures
        ({
            let sb = initial_superblock(now, text.len() as u64, headerspace);
            let after = overwrite(image, superblock_bytes(sb) + text);
            &&& formatted(after)
            &&& superblock_of(after) == sb
            &&& after.len() == image.len()
            &&& read_result(after) == match utf8_decoded(text) {
                Some(t) => Ok::<(Superblock, Seq<char>), StoreError>((sb, t)),
                None => Err(StoreError::HeaderDecodingFailure),
            }
        }),
{
    let sb = initial_superblock(now, text.len() as u64, headerspace);
    let rest = text + image.subrange((superblock_bytes(sb) + text).len() as int, image.len() as int);
    lemma_superblock_round_trip(sb, rest);
    let after = overwrite(image, superblock_bytes(sb) + text);
    assert(after =~= superblock_bytes(sb) + rest);
    assert(after.subrange(48, 48 + text.len() as int) =~= text);
}

/// Opening an image a second time, with no write in between, after an
/// open that succeeded, does not format it again: the image stays as it is
/// and the same superblock and header text are read, whatever the second
/// open is given to format with.
pub proof fn lemma_open_twice(image: Seq<u8>, header_space: Option<i64>, now: i64, text: Seq<u8>,
    header_space2: Option<i64>, now2: i64, text2: Seq<u8>)
    requires
        open_outcome(image, header_space, now, text).1 is Ok,
    ensures
        ({
            let (first, r1) = open_outcome(image, header_space, now, text);
            &&& formatted(first)
            &&& open_outcome(first, header_space2, now2, text2) == (first, r1)
        }),
{
    if !formatted(image) {
        let hs = header_space->Some_0 as u64;
        lemma_format_then_read(image, now, hs, text);
    }
}

/// The device path from the configuration: the node's own entry where it is
/// set, else the default entry; fails with `ConfigMissing` where neither is.
pub fn resolve_disk_name(host_disk: Option<String>, default_disk: Option<String>) -> (r: Result<String, StoreError>)
    ensures
        host_disk is Some ==> (r matches Ok(m) && m@ == host_disk->Some_0@),
        host_disk is None && default_disk is Some ==> (r matches Ok(m) && m@ == default_disk->Some_0@),
        host_disk is None && default_disk is None ==> r == Err::<String, StoreError>(StoreError::ConfigMissing),
{
    match host_disk {
        Some(n) => Ok(n),
        None => match default_disk {
            Some(n) => Ok(n),
            None => Err(StoreError::ConfigMissing),
        },
    }
}

/// The header of a freshly formatted device of `disksize` bytes with a
/// header reservation of `headerspace` bytes; fails with `OutOfSpace` where
/// the device cannot hold the superblock and the reservation.
pub fn initial_header(disksize: u64, headerspace: u64) -> (r: Result<Header, StoreError>)
    ensures
        SUPERBLOCK_SIZE + headerspace > disksize <==> r == Err::<Header, StoreError>(StoreError::OutOfSpace),
        SUPERBLOCK_SIZE + headerspace <= disksize <==> r is Ok,
        r matches Ok(h) ==> h.wf()
            && h.free_view() == seq![crate::freelist::FreeSlot { offset: SUPERBLOCK_SIZE, size: (disksize - SUPERBLOCK_SIZE - headerspace) as u64 }]
            && h.graph_view() == Seq::<(Seq<char>, u64, u64)>::empty()
            && h.gob_list()@ == Seq::<crate::goblist::GOB>::empty(),
{
    if headerspace > disksize || disksize - headerspace < SUPERBLOCK_SIZE {
        return Err(StoreError::OutOfSpace);
    }
    Ok(Header::new(SUPERBLOCK_SIZE, disksize, headerspace))
}

/// An open device: its name and size, the superblock fields and the header.
#[derive(Debug)]
pub struct Disk {
    diskname: String,
    disksize: u64,
    superblock: Superblock,
    header: Header,
}

impl Disk {
    pub closed spec fn name_view(&self) -> Seq<char> {
        self.diskname@
    }

    pub closed spec fn size_view(&self) -> u64 {
        self.disksize
    }

    pub closed spec fn superblock_view(&self) -> Superblock {
        self.superblock
    }

    pub closed spec fn header_view(&self) -> Header {
        self.header
    }

    /// The state of a device once its superblock and header were read.
    pub fn new(diskname: String, disksize: u64, superblock: Superblock, header: Header) -> (r: Disk)
        ensures
            r.name_view() == diskname@,
            r.size_view() == disksize,
            r.superblock_view() == superblock,
            r.header_view() == header,
    {
        Disk { diskname, disksize, superblock, header }
    }

    /// The device's name.
    pub fn get_name(&self) -> (r: &String)
        ensures
            r@ == self.name_view(),
    {
        &self.diskname
    }

    /// The device's size in bytes.
    pub fn get_size(&self) -> (r: u64)
        ensures
            r == self.size_view(),
    {
        self.disksize
    }

    /// The superblock fields read at open.
    pub fn superblock(&self) -> (r: Superblock)
        ensures
            r == self.superblock_view(),
    {
        self.superblock
    }

    /// The header read at open.
    pub fn header(&self) -> (r: &Header)
        ensures
            *r == self.header_view(),
    {
        &self.header
    }
}

} // verus!
