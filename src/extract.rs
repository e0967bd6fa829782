//! Turning a decoded archive into the files to write.
use vstd::prelude::*;

use crate::archive::{parse_addon, read_addon, AddonFile, AddonLayout};
use crate::cursor::ByteReader;
use crate::paths::{create_output_file_path, is_contained, name_is_contained, path_view, split_path};
use crate::text::utf8_lossy;
use crate::GmaError;

verus! {

/// One file to write: its path as components, and its whole contents.
pub struct FileWrite {
    pub path: Vec<String>,
    pub contents: Vec<u8>,
}

/// What extracting one archive comes to. The target directory, if any, is
/// created first; then the files are written in order, each replacing what
/// stood at its path. `outcome` holds the addon name on success.
pub struct Extraction {
    pub target: Option<Vec<String>>,
    pub writes: Vec<FileWrite>,
    pub outcome: Result<String, GmaError>,
}

/// The total of `sizes`.
pub open spec fn size_sum(sizes: Seq<u32>) -> int
    decreases sizes.len(),
{
    if sizes.len() == 0 {
        0
    } else {
        size_sum(sizes.drop_last()) + sizes.last()
    }
}

/// Totals of longer prefixes are no smaller.
pub proof fn lemma_size_sum_prefix(sizes: Seq<u32>, i: int, j: int)
    requires
        0 <= i <= j <= sizes.len(),
    ensures
        0 <= size_sum(sizes.take(i)) <= size_sum(sizes.take(j)),
    decreases j,
{
    if i == j {
        lemma_size_sum_nonneg(sizes.take(j));
    } else {
        lemma_size_sum_prefix(sizes, i, j - 1);
        lemma_size_sum_step(sizes, j - 1);
    }
}

/// A total of sizes is never negative.
pub proof fn lemma_size_sum_nonneg(sizes: Seq<u32>)
    ensures
        size_sum(sizes) >= 0,
    decreases sizes.len(),
{
    if sizes.len() > 0 {
        lemma_size_sum_nonneg(sizes.drop_last());
    }
}

/// The prefix of `i + 1` sizes totals one size more than that of `i`.
pub proof fn lemma_size_sum_step(sizes: Seq<u32>, i: int)
    requires
        0 <= i < sizes.len(),
    ensures
        size_sum(sizes.take(i + 1)) == size_sum(sizes.take(i)) + sizes[i],
{
    assert(sizes.take(i + 1).drop_last() =~= sizes.take(i));
}

/// The sizes that the decoded records declare.
pub open spec fn file_sizes(files: Seq<AddonFile>) -> Seq<u32> {
    files.map_values(|f: AddonFile| f.size)
}

/// The names of the decoded records.
pub open spec fn file_names(files: Seq<AddonFile>) -> Seq<Seq<char>> {
    files.map_values(|f: AddonFile| f.name@)
}

/// The payload of record `i` of `sizes` when payloads begin at `start` in `s`.
pub open spec fn payload(s: Seq<u8>, start: int, sizes: Seq<u32>, i: int) -> Seq<u8> {
    s.subrange(start + size_sum(sizes.take(i)), start + size_sum(sizes.take(i + 1)))
}

/// `writes` is what reading the payloads of records `names` and `sizes`, from
/// `start` in `s`, and placing them under `dir`, gives: one file per record in
/// order, for as many records as `s` holds whole payloads of.
pub open spec fn payloads_written(
    s: Seq<u8>,
    start: int,
    names: Seq<Seq<char>>,
    sizes: Seq<u32>,
    dir: Seq<Seq<char>>,
    writes: Seq<FileWrite>,
) -> bool {
    let n = writes.len() as int;
    &&& n <= sizes.len()
    &&& start + size_sum(sizes.take(n)) <= s.len()
    &&& n < sizes.len() ==> start + size_sum(sizes.take(n + 1)) > s.len()
    &&& forall|i: int|
        0 <= i < n ==> path_view((#[trigger] writes[i]).path@) == dir + split_path(names[i])
            && writes[i].contents@ == payload(s, start, sizes, i)
}

/// Reads each record's payload in order, from the read position on, and pairs
/// it with the record's path under `addon_path`. Stops with `Truncated` at the
/// first payload that the stream does not hold whole.
pub fn extract_payloads(r: &mut ByteReader, files: &Vec<AddonFile>, addon_path: &Vec<String>) -> (res: (
    Vec<FileWrite>,
    Result<(), GmaError>,
))
    requires
        old(r).wf(),
    ensures
        final(r).wf(),
        final(r).bytes() == old(r).bytes(),
        payloads_written(
            old(r).bytes(),
            old(r).pos(),
            file_names(files@),
            file_sizes(files@),
            path_view(addon_path@),
            res.0@,
        ),
        final(r).pos() == old(r).pos() + size_sum(file_sizes(files@).take(res.0@.len() as int)),
        res.1 is Ok <==> res.0@.len() == files@.len(),
        res.1 is Err ==> res.1 == Err::<(), GmaError>(GmaError::Truncated),
        res.1 is Ok ==> final(r).pos() == old(r).pos() + size_sum(file_sizes(files@)),
{
    let ghost s = r.bytes();
    let ghost start = r.pos();
    let ghost sizes = file_sizes(files@);
    let ghost names = file_names(files@);
    let ghost dir = path_view(addon_path@);
    let mut writes: Vec<FileWrite> = Vec::new();
    let mut i: usize = 0;
    while i < files.len()
        invariant
            r.wf(),
            r.bytes() == s,
            s == old(r).bytes(),
            start == old(r).pos(),
            sizes == file_sizes(files@),
            names == file_names(files@),
            dir == path_view(addon_path@),
            i <= files.len(),
            writes@.len() == i,
            r.pos() == start + size_sum(sizes.take(i as int)),
            forall|k: int|
                0 <= k < i ==> path_view((#[trigger] writes@[k]).path@) == dir + split_path(names[k])
                    && writes@[k].contents@ == payload(s, start, sizes, k),
        decreases files.len() - i,
    {
        let file = &files[i];
        proof {
            lemma_size_sum_step(sizes, i as int);
        }
        let path = create_output_file_path(addon_path, file.name.as_str());
        match r.read_exact(file.size as usize) {
            Ok(contents) => {
                writes.push(FileWrite { path, contents });
                i = i + 1;
            },
            Err(e) => {
                return (writes, Err(e));
            },
        }
    }
    assert(sizes.take(files.len() as int) =~= sizes);
    (writes, Ok(()))
}

/// The names, decoded, of the records of `l`.
pub open spec fn record_names(l: AddonLayout) -> Seq<Seq<char>> {
    l.records.map_values(|rec: (Seq<u8>, u32)| utf8_lossy(rec.0))
}

/// The sizes that the records of `l` declare.
pub open spec fn record_sizes(l: AddonLayout) -> Seq<u32> {
    l.records.map_values(|rec: (Seq<u8>, u32)| rec.1)
}

/// The addon name and every record name of `l` stay inside the directory
/// they are joined under.
pub open spec fn layout_contained(l: AddonLayout) -> bool {
    &&& name_is_contained(utf8_lossy(l.name))
    &&& forall|i: int| 0 <= i < l.records.len() ==> name_is_contained(#[trigger] record_names(l)[i])
}

/// `e` is what extracting the archive `data` under the directory `output_dir`
/// comes to.
pub open spec fn extraction_meets(data: Seq<u8>, output_dir: Seq<Seq<char>>, e: Extraction) -> bool {
    match parse_addon(data) {
        Err(err) => e.outcome == Err::<String, GmaError>(err) && e.target is None && e.writes@.len() == 0,
        Ok(l) => if l.records.len() == 0 {
            e.outcome is Ok && e.outcome->Ok_0@ == utf8_lossy(l.name) && e.target is None
                && e.writes@.len() == 0
        } else if !layout_contained(l) {
            e.outcome == Err::<String, GmaError>(GmaError::UnsafePath) && e.target is None
                && e.writes@.len() == 0
        } else {
            &&& e.target is Some
            &&& path_view(e.target->Some_0@) == output_dir + split_path(utf8_lossy(l.name))
            &&& payloads_written(
                data,
                l.payload_start,
                record_names(l),
                record_sizes(l),
                path_view(e.target->Some_0@),
                e.writes@,
            )
            &&& (e.outcome is Ok <==> e.writes@.len() == l.records.len())
            &&& e.outcome is Ok ==> e.outcome->Ok_0@ == utf8_lossy(l.name)
            &&& e.outcome is Err ==> e.outcome == Err::<String, GmaError>(GmaError::Truncated)
        },
    }
}

/// Decodes the archive `data` and gives the files it extracts to under
/// `output_dir`: under the directory named after the addon, one file per
/// record, in record order. An archive without records gives no directory
/// and no file. One whose addon name or a record name leaves that directory
/// gives `UnsafePath` and nothing to write.
pub fn extract_file(data: Vec<u8>, output_dir: &Vec<String>) -> (e: Extraction)
    ensures
        extraction_meets(data@, path_view(output_dir@), e),
{
    let ghost s = data@;
    let mut r = ByteReader::new(data);
    let addon = match read_addon(&mut r) {
        Ok(a) => a,
        Err(err) => {
            return Extraction { target: None, writes: Vec::new(), outcome: Err(err) };
        },
    };
    let ghost l = parse_addon(s)->Ok_0;
    assert forall|k: int| 0 <= k < addon.files@.len() implies #[trigger] file_sizes(addon.files@)[k]
        == record_sizes(l)[k] && file_names(addon.files@)[k] == record_names(l)[k] by {
        assert(addon.files@[k].name@ == utf8_lossy(l.records[k].0));
    }
    assert(file_names(addon.files@) =~= record_names(l));
    assert(file_sizes(addon.files@) =~= record_sizes(l));
    if addon.files.len() == 0 {
        return Extraction { target: None, writes: Vec::new(), outcome: Ok(addon.name) };
    }
    let refused = Extraction { target: None, writes: Vec::new(), outcome: Err(GmaError::UnsafePath) };
    if !is_contained(addon.name.as_str()) {
        return refused;
    }
    let mut i: usize = 0;
    while i < addon.files.len()
        invariant
            i <= addon.files.len(),
            s == data@,
            parse_addon(s) is Ok,
            l == parse_addon(s)->Ok_0,
            l.records.len() > 0,
            addon.files@.len() == l.records.len(),
            refused.outcome == Err::<String, GmaError>(GmaError::UnsafePath),
            refused.target is None,
            refused.writes@.len() == 0,
            file_names(addon.files@) == record_names(l),
            forall|k: int| 0 <= k < i ==> name_is_contained(#[trigger] record_names(l)[k]),
        decreases addon.files.len() - i,
    {
        if !is_contained(addon.files[i].name.as_str()) {
            assert(!name_is_contained(record_names(l)[i as int]));
            return refused;
        }
        i = i + 1;
    }
    let target = create_output_file_path(output_dir, addon.name.as_str());
    let (writes, res) = extract_payloads(&mut r, &addon.files, &target);
    let outcome = match res {
        Ok(()) => Ok(addon.name),
        Err(err) => Err(err),
    };
    Extraction { target: Some(target), writes, outcome }
}

} // verus!
