//! The archive header and its record table.
use vstd::prelude::*;

use crate::cursor::{u32_le_at, ByteReader};
use crate::text::{cstr_len, utf8_lossy, ztstr};
use crate::GmaError;

verus! {

/// The signature that opens every archive, read as a little-endian integer.
pub const GMA_MAGIC: u32 = 0x44414d47;

/// Bytes of version fields between the signature and the addon name.
pub const HEADER_RESERVED: usize = 18;

/// Bytes of reserved data after the author field.
pub const HEADER_TRAILER: usize = 4;

/// Bytes of metadata after each record's size.
pub const RECORD_RESERVED: usize = 8;

/// One declared file: its name and the size of its payload.
pub struct AddonFile {
    pub name: String,
    pub size: u32,
}

/// What the header and record table of an archive declare.
pub struct Addon {
    pub name: String,
    pub files: Vec<AddonFile>,
}

/// The layout of an archive as bytes: the raw addon name, each record's raw
/// name and size, and where the payloads begin.
pub struct AddonLayout {
    pub name: Seq<u8>,
    pub records: Seq<(Seq<u8>, u32)>,
    pub payload_start: int,
}

/// Adds the records `acc` in front of the outcome of reading the rest of a table.
pub open spec fn prepend_records(
    acc: Seq<(Seq<u8>, u32)>,
    rest: Result<(Seq<(Seq<u8>, u32)>, int), GmaError>,
) -> Result<(Seq<(Seq<u8>, u32)>, int), GmaError> {
    match rest {
        Ok((recs, end)) => Ok((acc + recs, end)),
        Err(e) => Err(e),
    }
}

proof fn lemma_prepend_records_assoc(
    a: Seq<(Seq<u8>, u32)>,
    b: Seq<(Seq<u8>, u32)>,
    rest: Result<(Seq<(Seq<u8>, u32)>, int), GmaError>,
)
    ensures
        prepend_records(a, prepend_records(b, rest)) == prepend_records(a + b, rest),
{
    if let Ok((recs, end)) = rest {
        assert(a + (b + recs) =~= a + b + recs);
    }
}

/// The records of the table that starts at `p`, and the position after its
/// zero sentinel.
pub open spec fn parse_table(s: Seq<u8>, p: int) -> Result<(Seq<(Seq<u8>, u32)>, int), GmaError>
    decreases s.len() - p,
{
    if p < 0 || p + 4 > s.len() {
        Err(GmaError::Truncated)
    } else if u32_le_at(s, p) == 0 {
        Ok((Seq::empty(), p + 4))
    } else {
        match cstr_len(s, p + 4) {
            None => Err(GmaError::Truncated),
            Some(n) => {
                let q = p + 4 + n + 1;
                if q + 4 + RECORD_RESERVED > s.len() {
                    Err(GmaError::Truncated)
                } else {
                    prepend_records(
                        seq![(s.subrange(p + 4, p + 4 + n), u32_le_at(s, q) as u32)],
                        parse_table(s, q + 4 + RECORD_RESERVED),
                    )
                }
            },
        }
    }
}

/// The raw addon name and the position of the record table.
pub open spec fn parse_header(s: Seq<u8>) -> Result<(Seq<u8>, int), GmaError> {
    if s.len() < 4 {
        Err(GmaError::Truncated)
    } else if u32_le_at(s, 0) != GMA_MAGIC as int {
        Err(GmaError::InvalidFormat)
    } else {
        let p0 = 4 + HEADER_RESERVED;
        match cstr_len(s, p0) {
            None => Err(GmaError::Truncated),
            Some(a) => {
                let p1 = p0 + a + 1;
                match cstr_len(s, p1) {
                    None => Err(GmaError::Truncated),
                    Some(b) => {
                        let p2 = p1 + b + 1;
                        match cstr_len(s, p2) {
                            None => Err(GmaError::Truncated),
                            Some(c) => {
                                let p3 = p2 + c + 1;
                                if p3 + HEADER_TRAILER > s.len() {
                                    Err(GmaError::Truncated)
                                } else {
                                    Ok((s.subrange(p0, p0 + a), p3 + HEADER_TRAILER))
                                }
                            },
                        }
                    },
                }
            },
        }
    }
}

/// The layout of the archive `s`, or why it cannot be decoded.
pub open spec fn parse_addon(s: Seq<u8>) -> Result<AddonLayout, GmaError> {
    match parse_header(s) {
        Err(e) => Err(e),
        Ok((name, p)) => match parse_table(s, p) {
            Err(e) => Err(e),
            Ok((records, q)) => Ok(AddonLayout { name, records, payload_start: q }),
        },
    }
}

/// The decoded records `files` are the raw records `recs`.
pub open spec fn files_match(files: Seq<AddonFile>, recs: Seq<(Seq<u8>, u32)>) -> bool {
    &&& files.len() == recs.len()
    &&& forall|i: int|
        0 <= i < files.len() ==> #[trigger] files[i].name@ == utf8_lossy(recs[i].0) && files[i].size
            == recs[i].1
}

/// `a` is what decoding the layout `l` gives.
pub open spec fn decodes_to(a: Addon, l: AddonLayout) -> bool {
    &&& a.name@ == utf8_lossy(l.name)
    &&& files_match(a.files@, l.records)
}

/// Reads the record table at the read position, up to and including its sentinel.
pub fn read_records(r: &mut ByteReader) -> (res: Result<Vec<AddonFile>, GmaError>)
    requires
        old(r).wf(),
    ensures
        final(r).wf(),
        final(r).bytes() == old(r).bytes(),
        match parse_table(old(r).bytes(), old(r).pos()) {
            Ok((recs, end)) => res is Ok && files_match(res->Ok_0@, recs) && final(r).pos() == end,
            Err(e) => res == Err::<Vec<AddonFile>, GmaError>(e),
        },
        res is Err ==> res == Err::<Vec<AddonFile>, GmaError>(GmaError::Truncated),
{
    let ghost s = r.bytes();
    let ghost p0 = r.pos();
    let ghost mut recs: Seq<(Seq<u8>, u32)> = Seq::empty();
    let mut files: Vec<AddonFile> = Vec::new();
    loop
        invariant
            r.wf(),
            r.bytes() == s,
            s == old(r).bytes(),
            p0 == old(r).pos(),
            files_match(files@, recs),
            parse_table(s, p0) == prepend_records(recs, parse_table(s, r.pos())),
        decreases s.len() - r.pos(),
    {
        let ghost p = r.pos();
        let index = match r.read_u32_le() {
            Ok(v) => v,
            Err(e) => {
                return Err(e);
            },
        };
        if index == 0 {
            assert(recs + Seq::<(Seq<u8>, u32)>::empty() =~= recs);
            return Ok(files);
        }
        let name = match ztstr(r) {
            Ok(t) => t,
            Err(e) => {
                return Err(e);
            },
        };
        let ghost n = cstr_len(s, p + 4)->Some_0;
        let ghost q = r.pos();
        let size = match r.read_u32_le() {
            Ok(v) => v,
            Err(e) => {
                return Err(e);
            },
        };
        match r.skip(RECORD_RESERVED) {
            Ok(()) => {},
            Err(e) => {
                return Err(e);
            },
        }
        let ghost rec = (s.subrange(p + 4, p + 4 + n), size);
        assert(parse_table(s, p) == prepend_records(seq![rec], parse_table(s, r.pos())));
        proof {
            lemma_prepend_records_assoc(recs, seq![rec], parse_table(s, r.pos()));
            assert(recs.push(rec) =~= recs + seq![rec]);
        }
        proof {
            recs = recs.push(rec);
        }
        files.push(AddonFile { name, size });
    }
}

/// Decodes the header and record table of the archive that `r` holds from its
/// start, leaving the read position at the first payload byte.
pub fn read_addon(r: &mut ByteReader) -> (res: Result<Addon, GmaError>)
    requires
        old(r).wf(),
        old(r).pos() == 0,
    ensures
        final(r).wf(),
        final(r).bytes() == old(r).bytes(),
        match parse_addon(old(r).bytes()) {
            Ok(l) => res is Ok && decodes_to(res->Ok_0, l) && final(r).pos() == l.payload_start,
            Err(e) => res == Err::<Addon, GmaError>(e),
        },
        res is Err && res->Err_0 == GmaError::InvalidFormat ==> final(r).pos() == 4,
{
    let ghost s = r.bytes();
    let magic = match r.read_u32_le() {
        Ok(v) => v,
        Err(e) => {
            return Err(e);
        },
    };
    if magic != GMA_MAGIC {
        return Err(GmaError::InvalidFormat);
    }
    match r.skip(HEADER_RESERVED) {
        Ok(()) => {},
        Err(e) => {
            return Err(e);
        },
    }
    let name = match ztstr(r) {
        Ok(t) => t,
        Err(e) => {
            return Err(e);
        },
    };
    let _description = match ztstr(r) {
        Ok(t) => t,
        Err(e) => {
            return Err(e);
        },
    };
    let _author = match ztstr(r) {
        Ok(t) => t,
        Err(e) => {
            return Err(e);
        },
    };
    match r.skip(HEADER_TRAILER) {
        Ok(()) => {},
        Err(e) => {
            return Err(e);
        },
    }
    let files = match read_records(r) {
        Ok(f) => f,
        Err(e) => {
            return Err(e);
        },
    };
    Ok(Addon { name, files })
}

} // verus!
