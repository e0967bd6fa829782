//! Properties that hold of every archive.
use vstd::prelude::*;

use crate::archive::{parse_addon, parse_header, parse_table, AddonLayout, GMA_MAGIC, RECORD_RESERVED};
use crate::cursor::u32_le_at;
use crate::extract::{
    extraction_meets, lemma_size_sum_prefix, lemma_size_sum_step, payload, record_sizes, size_sum,
    Extraction, FileWrite,
};
use crate::paths::path_view;
use crate::text::cstr_len;
use crate::GmaError;

verus! {

/// A directory tree as a map from file paths to contents.
pub type FileTree = Map<Seq<Seq<char>>, Seq<u8>>;

/// Each write as a path and its contents.
pub open spec fn write_views(ws: Seq<FileWrite>) -> Seq<(Seq<Seq<char>>, Seq<u8>)> {
    ws.map_values(|w: FileWrite| (path_view(w.path@), w.contents@))
}

/// The tree after writing `ws` in order into `fs`, each write replacing
/// whatever stood at its path.
pub open spec fn apply_writes(fs: FileTree, ws: Seq<(Seq<Seq<char>>, Seq<u8>)>) -> FileTree
    decreases ws.len(),
{
    if ws.len() == 0 {
        fs
    } else {
        apply_writes(fs, ws.drop_last()).insert(ws.last().0, ws.last().1)
    }
}

/// Writing `ws` over a tree keeps what the writes do not touch and takes the
/// last written contents at each path they do.
pub proof fn lemma_apply_writes_overlay(fs: FileTree, ws: Seq<(Seq<Seq<char>>, Seq<u8>)>)
    ensures
        apply_writes(fs, ws) == fs.union_prefer_right(apply_writes(Map::empty(), ws)),
    decreases ws.len(),
{
    if ws.len() == 0 {
        assert(fs.union_prefer_right(Map::empty()) =~= fs);
    } else {
        lemma_apply_writes_overlay(fs, ws.drop_last());
        assert(apply_writes(fs, ws) =~= fs.union_prefer_right(apply_writes(Map::empty(), ws)));
    }
}

/// Two extractions of one archive under one directory give the same target
/// and the same writes, and the second run leaves the tree exactly as the
/// first left it: files are overwritten with the same bytes, none is added.
pub proof fn lemma_rerun_idempotent(
    data: Seq<u8>,
    output_dir: Seq<Seq<char>>,
    first: Extraction,
    second: Extraction,
    fs: FileTree,
)
    requires
        extraction_meets(data, output_dir, first),
        extraction_meets(data, output_dir, second),
    ensures
        first.target is Some <==> second.target is Some,
        first.target is Some ==> path_view(first.target->Some_0@) == path_view(second.target->Some_0@),
        write_views(first.writes@) == write_views(second.writes@),
        first.outcome is Ok <==> second.outcome is Ok,
        apply_writes(apply_writes(fs, write_views(first.writes@)), write_views(second.writes@))
            == apply_writes(fs, write_views(first.writes@)),
{
    let ws = write_views(first.writes@);
    if let Ok(l) = parse_addon(data) {
        if first.writes@.len() > 0 {
            let sizes = record_sizes(l);
            let n1 = first.writes@.len() as int;
            let n2 = second.writes@.len() as int;
            if n1 < n2 {
                lemma_size_sum_prefix(sizes, n1 + 1, n2);
            }
            if n2 < n1 {
                lemma_size_sum_prefix(sizes, n2 + 1, n1);
            }
            assert(write_views(first.writes@) =~= write_views(second.writes@));
        } else {
            if second.writes@.len() > 0 {
                let sizes = record_sizes(l);
                lemma_size_sum_prefix(sizes, 1, second.writes@.len() as int);
            }
            assert(write_views(first.writes@) =~= write_views(second.writes@));
        }
    } else {
        assert(write_views(first.writes@) =~= write_views(second.writes@));
    }
    lemma_apply_writes_overlay(fs, ws);
    lemma_apply_writes_overlay(apply_writes(fs, ws), ws);
    let once = apply_writes(Map::empty(), ws);
    assert(fs.union_prefer_right(once).union_prefer_right(once) =~= fs.union_prefer_right(once));
}

/// The contents of `ws`, one after another.
pub open spec fn concat_contents(ws: Seq<FileWrite>) -> Seq<u8>
    decreases ws.len(),
{
    if ws.len() == 0 {
        Seq::empty()
    } else {
        concat_contents(ws.drop_last()) + ws.last().contents@
    }
}

proof fn lemma_concat_prefix(s: Seq<u8>, start: int, sizes: Seq<u32>, ws: Seq<FileWrite>, k: int)
    requires
        0 <= start,
        0 <= k <= ws.len() <= sizes.len(),
        start + size_sum(sizes.take(ws.len() as int)) <= s.len(),
        forall|i: int| 0 <= i < ws.len() ==> (#[trigger] ws[i]).contents@ == payload(s, start, sizes, i),
    ensures
        concat_contents(ws.take(k)) == s.subrange(start, start + size_sum(sizes.take(k))),
    decreases k,
{
    lemma_size_sum_prefix(sizes, k, ws.len() as int);
    if k == 0 {
        assert(ws.take(0) =~= Seq::<FileWrite>::empty());
        assert(sizes.take(0) =~= Seq::<u32>::empty());
        assert(s.subrange(start, start) =~= Seq::<u8>::empty());
    } else {
        lemma_concat_prefix(s, start, sizes, ws, k - 1);
        lemma_size_sum_step(sizes, k - 1);
        lemma_size_sum_prefix(sizes, k - 1, k);
        assert(ws.take(k).drop_last() =~= ws.take(k - 1));
        assert(s.subrange(start, start + size_sum(sizes.take(k))) =~= s.subrange(
            start,
            start + size_sum(sizes.take(k - 1)),
        ) + payload(s, start, sizes, k - 1));
    }
}

proof fn lemma_table_end(s: Seq<u8>, p: int)
    requires
        parse_table(s, p) is Ok,
    ensures
        p <= parse_table(s, p)->Ok_0.1 <= s.len(),
    decreases s.len() - p,
{
    if u32_le_at(s, p) != 0 {
        let n = cstr_len(s, p + 4)->Some_0;
        lemma_table_end(s, p + 4 + n + 1 + 4 + RECORD_RESERVED);
    }
}

proof fn lemma_payload_start_nonneg(s: Seq<u8>)
    requires
        parse_addon(s) is Ok,
    ensures
        0 <= parse_addon(s)->Ok_0.payload_start <= s.len(),
{
    lemma_table_end(s, parse_header(s)->Ok_0.1);
}

/// When every file of an archive is extracted, the payload region is read
/// exactly: the files' contents, one after another, are the bytes from the
/// first payload on, as many as the declared sizes add up to, no more, no
/// fewer.
pub proof fn lemma_payload_region_consumed(data: Seq<u8>, output_dir: Seq<Seq<char>>, e: Extraction)
    requires
        extraction_meets(data, output_dir, e),
        e.outcome is Ok,
    ensures
        parse_addon(data) is Ok,
        concat_contents(e.writes@) == data.subrange(
            parse_addon(data)->Ok_0.payload_start,
            parse_addon(data)->Ok_0.payload_start + size_sum(record_sizes(parse_addon(data)->Ok_0)),
        ),
{
    let l = parse_addon(data)->Ok_0;
    let sizes = record_sizes(l);
    lemma_payload_start_nonneg(data);
    if l.records.len() == 0 {
        assert(sizes =~= Seq::<u32>::empty());
        assert(data.subrange(l.payload_start, l.payload_start) =~= Seq::<u8>::empty());
    } else {
        let ws = e.writes@;
        lemma_concat_prefix(data, l.payload_start, sizes, ws, ws.len() as int);
        assert(ws.take(ws.len() as int) =~= ws);
        assert(sizes.take(ws.len() as int) =~= sizes);
    }
}

/// A stream whose first four bytes are not the signature is refused as not
/// an archive, whatever follows.
pub proof fn lemma_magic_check(s: Seq<u8>)
    requires
        s.len() >= 4,
        u32_le_at(s, 0) != GMA_MAGIC as int,
    ensures
        parse_addon(s) == Err::<AddonLayout, GmaError>(GmaError::InvalidFormat),
{
}

} // verus!
