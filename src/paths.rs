//! Output paths as sequences of components, and which record names stay
//! inside the extraction target.
use vstd::prelude::*;

verus! {

/// The pieces of `t` between `/` separators, empty pieces included: `n`
/// separators give `n + 1` pieces.
pub open spec fn split_path(t: Seq<char>) -> Seq<Seq<char>>
    decreases t.len(),
{
    if t.len() == 0 {
        seq![Seq::empty()]
    } else {
        let init = split_path(t.drop_last());
        if t.last() == '/' {
            init.push(Seq::empty())
        } else {
            init.update(init.len() - 1, init.last().push(t.last()))
        }
    }
}

/// Every name has at least one piece.
pub proof fn lemma_split_path_nonempty(t: Seq<char>)
    ensures
        split_path(t).len() >= 1,
    decreases t.len(),
{
    if t.len() > 0 {
        lemma_split_path_nonempty(t.drop_last());
    }
}

/// The components of a path held as strings.
pub open spec fn path_view(p: Seq<String>) -> Seq<Seq<char>> {
    p.map_values(|c: String| c@)
}

/// A component that names the parent directory.
pub open spec fn is_parent_component(c: Seq<char>) -> bool {
    c == seq!['.', '.']
}

/// The name `t`, split on `/`, neither starts at the file system root (nor is
/// empty) nor climbs to a parent directory: joined under a directory, it stays
/// inside it.
pub open spec fn name_is_contained(t: Seq<char>) -> bool {
    &&& split_path(t)[0].len() > 0
    &&& forall|i: int| 0 <= i < split_path(t).len() ==> !is_parent_component(#[trigger] split_path(t)[i])
}

/// Splits `name` on `/` into path components.
pub fn name_segments(name: &str) -> (segs: Vec<String>)
    ensures
        path_view(segs@) == split_path(name@),
{
    let len = name.unicode_len();
    let mut segs: Vec<String> = Vec::new();
    let mut start: usize = 0;
    let mut i: usize = 0;
    assert(name@.subrange(0, 0) =~= Seq::<char>::empty());
    assert(path_view(segs@).push(name@.subrange(0, 0)) =~= split_path(name@.subrange(0, 0)));
    while i < len
        invariant
            len == name@.len(),
            start <= i <= len,
            path_view(segs@).push(name@.subrange(start as int, i as int)) == split_path(name@.subrange(0, i as int)),
        decreases len - i,
    {
        let c = name.get_char(i);
        let ghost prev = name@.subrange(0, i as int);
        let ghost next = name@.subrange(0, i + 1);
        assert(next.drop_last() =~= prev);
        assert(next.last() == c);
        if c == '/' {
            let seg = name.substring_char(start, i).to_owned();
            segs.push(seg);
            start = i + 1;
            assert(path_view(segs@) =~= path_view(segs@).drop_last().push(seg@));
            assert(name@.subrange(start as int, i + 1) =~= Seq::<char>::empty());
        } else {
            assert(name@.subrange(start as int, i + 1) =~= name@.subrange(start as int, i as int).push(c));
        }
        i = i + 1;
        assert(path_view(segs@).push(name@.subrange(start as int, i as int)) =~= split_path(name@.subrange(0, i as int)));
    }
    let last = name.substring_char(start, len).to_owned();
    segs.push(last);
    assert(name@.subrange(0, len as int) =~= name@);
    assert(path_view(segs@) =~= split_path(name@));
    segs
}

/// The path of the file that the record `file_name` becomes under `addon_path`:
/// each `/`-separated piece of the name joined in turn.
pub fn create_output_file_path(addon_path: &Vec<String>, file_name: &str) -> (p: Vec<String>)
    ensures
        path_view(p@) == path_view(addon_path@) + split_path(file_name@),
{
    let mut p: Vec<String> = Vec::new();
    let mut i: usize = 0;
    while i < addon_path.len()
        invariant
            i <= addon_path.len(),
            p@.len() == i,
            forall|k: int| 0 <= k < i ==> #[trigger] p@[k]@ == addon_path@[k]@,
        decreases addon_path.len() - i,
    {
        p.push(addon_path[i].clone());
        i = i + 1;
    }
    let segs = name_segments(file_name);
    let n = p.len();
    let mut j: usize = 0;
    while j < segs.len()
        invariant
            j <= segs.len(),
            n == addon_path@.len(),
            p@.len() == n + j,
            forall|k: int| 0 <= k < n ==> #[trigger] p@[k]@ == addon_path@[k]@,
            forall|k: int| 0 <= k < j ==> #[trigger] p@[n + k]@ == segs@[k]@,
        decreases segs.len() - j,
    {
        p.push(segs[j].clone());
        j = j + 1;
    }
    assert forall|k: int| 0 <= k < p@.len() implies #[trigger] path_view(p@)[k] == (path_view(addon_path@) + path_view(segs@))[k] by {
        if k >= n {
            assert(p@[n + (k - n)]@ == segs@[k - n]@);
        }
    }
    assert(path_view(p@) =~= path_view(addon_path@) + path_view(segs@));
    p
}

/// Whether `c` is the parent-directory component `..`.
fn is_parent(c: &String) -> (r: bool)
    ensures
        r == is_parent_component(c@),
{
    let s = c.as_str();
    if s.unicode_len() != 2 {
        return false;
    }
    let r = s.get_char(0) == '.' && s.get_char(1) == '.';
    assert(r ==> c@ =~= seq!['.', '.']);
    r
}

/// Whether the record name `name` stays inside the directory it is joined under.
pub fn is_contained(name: &str) -> (r: bool)
    ensures
        r == name_is_contained(name@),
{
    let segs = name_segments(name);
    proof {
        lemma_split_path_nonempty(name@);
    }
    if segs[0].as_str().unicode_len() == 0 {
        return false;
    }
    let mut i: usize = 0;
    while i < segs.len()
        invariant
            i <= segs.len(),
            path_view(segs@) == split_path(name@),
            forall|k: int| 0 <= k < i ==> !is_parent_component(#[trigger] split_path(name@)[k]),
        decreases segs.len() - i,
    {
        if is_parent(&segs[i]) {
            assert(is_parent_component(split_path(name@)[i as int]));
            return false;
        }
        i = i + 1;
    }
    true
}

} // verus!
