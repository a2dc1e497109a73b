//! The tree of directories: the first directory and every directory reached
//! from it through Sub-IFD pointers, each keyed by its offset.
use vstd::prelude::*;

use crate::entry::{bounded_value, entry_values, DataType};
use crate::error::DngError;
use crate::get_value::fits;
use crate::header::ImageFileHeader;
use crate::ifd::{ifd_spec, IFD};
use crate::thumbnail::thumbnail_choice;
use crate::Endian;

verus! {

/// Tag whose values are the offsets of child directories.
pub const SUB_IFD_TAG: u16 = 330;

/// The offsets that a sequence of values names, or the error of the first
/// value that is no offset.
pub open spec fn offsets_of(values: Seq<DataType>) -> Result<Seq<usize>, DngError>
    decreases values.len(),
{
    if values.len() == 0 {
        Ok(Seq::empty())
    } else {
        match offsets_of(values.drop_last()) {
            Err(e) => Err(e),
            Ok(s) => match bounded_value(values.last(), usize::MAX as int) {
                Err(e) => Err(e),
                Ok(n) => Ok(s.push(n as usize)),
            },
        }
    }
}

/// The child offsets of the directory at `offset`: the values of its
/// Sub-IFD entry, or none when it has no such entry.
#[verifier::opaque]
pub open spec fn sub_ifd_offsets(buffer: Seq<u8>, endian: Endian, offset: usize) -> Result<
    Seq<usize>,
    DngError,
> {
    match ifd_spec(buffer, offset as int, endian) {
        Err(e) => Err(e),
        Ok(m) => if m.contains_key(SUB_IFD_TAG) {
            match entry_values(m[SUB_IFD_TAG], buffer, endian) {
                Err(e) => Err(e),
                Ok(vs) => offsets_of(vs),
            }
        } else {
            Ok(Seq::empty())
        },
    }
}

/// The directory at `from` parses and names `to` among its children.
pub open spec fn link(buffer: Seq<u8>, endian: Endian, from: usize, to: usize) -> bool {
    match sub_ifd_offsets(buffer, endian, from) {
        Ok(s) => s.contains(to),
        Err(_) => false,
    }
}

/// `p` is a chain of directories from `root`, each a child of the one before.
pub open spec fn is_path(buffer: Seq<u8>, endian: Endian, root: usize, p: Seq<usize>) -> bool {
    &&& p.len() >= 1
    &&& p[0] == root
    &&& forall|j: int| 0 <= j < p.len() - 1 ==> #[trigger] link(buffer, endian, p[j], p[j + 1])
}

/// Some chain from `root` ends at `offset`.
pub open spec fn reachable(buffer: Seq<u8>, endian: Endian, root: usize, offset: usize) -> bool {
    exists|p: Seq<usize>| #[trigger] is_path(buffer, endian, root, p) && p.last() == offset
}

/// Every directory reachable from `root` parses, and so do its Sub-IFD pointers.
pub open spec fn tree_resolvable(buffer: Seq<u8>, endian: Endian, root: usize) -> bool {
    forall|p: Seq<usize>| #[trigger]
        is_path(buffer, endian, root, p) ==> sub_ifd_offsets(buffer, endian, p.last()) is Ok
}

/// No chain from `root` visits a directory twice.
pub open spec fn tree_acyclic(buffer: Seq<u8>, endian: Endian, root: usize) -> bool {
    forall|p: Seq<usize>| #[trigger] is_path(buffer, endian, root, p) ==> p.no_duplicates()
}

/// All directories of a file, keyed by offset, with the offset of the
/// thumbnail directory and a place for that of the main image.
#[derive(Debug)]
pub struct IFDs {
    pub ifds: Vec<IFD>,
    pub thumbnail: Option<usize>,
    pub raw_image: Option<usize>,
}

impl IFDs {
    /// The offsets of the directories held, in the order they were found.
    pub open spec fn offsets(&self) -> Seq<usize> {
        self.ifds@.map_values(|f: IFD| f.offset)
    }

    /// A directory with this offset is held.
    pub open spec fn contains(&self, offset: usize) -> bool {
        self.offsets().contains(offset)
    }

    /// No offset is held twice.
    pub open spec fn wf(&self) -> bool {
        self.offsets().no_duplicates()
    }

    /// Every directory held is the one that `buffer` holds at its offset, and
    /// its Sub-IFD pointers resolve.
    pub open spec fn parsed_from(&self, buffer: Seq<u8>, endian: Endian) -> bool {
        forall|i: int|
            0 <= i < self.ifds.len() ==> ifd_spec(buffer, #[trigger] self.ifds@[i].offset as int, endian)
                == Ok::<Map<u16, crate::entry::DirectoryEntry>, DngError>(self.ifds@[i].entries@)
                && sub_ifd_offsets(buffer, endian, self.ifds@[i].offset) is Ok
    }

    /// An empty set of directories.
    pub fn new() -> (r: Self)
        ensures
            r.ifds@.len() == 0,
            r.thumbnail is None,
            r.raw_image is None,
    {
        IFDs { ifds: Vec::new(), thumbnail: None, raw_image: None }
    }

    /// The index of the directory with this offset.
    pub fn position(&self, offset: usize) -> (r: Option<usize>)
        ensures
            match r {
                Some(i) => i < self.ifds.len() && self.ifds@[i as int].offset == offset,
                None => !self.contains(offset),
            },
    {
        let mut i: usize = 0;
        while i < self.ifds.len()
            invariant
                i <= self.ifds.len(),
                forall|j: int| 0 <= j < i ==> self.ifds@[j].offset != offset,
            decreases self.ifds.len() - i,
        {
            if self.ifds[i].offset == offset {
                return Some(i);
            }
            i = i + 1;
        }
        proof {
            if self.contains(offset) {
                let j = choose|j: int| 0 <= j < self.offsets().len() && self.offsets()[j] == offset;
                assert(self.ifds@[j].offset == offset);
            }
        }
        None
    }

    /// The directory with this offset.
    pub fn get(&self, offset: usize) -> (r: Option<&IFD>)
        ensures
            match r {
                Some(f) => f.offset == offset && exists|i: int|
                    0 <= i < self.ifds.len() && self.ifds@[i] == *f,
                None => !self.contains(offset),
            },
    {
        match self.position(offset) {
            Some(i) => Some(&self.ifds[i]),
            None => None,
        }
    }

    /// Adds a directory unless one with its offset is already held.
    pub fn extend(&mut self, ifd: IFD)
        ensures
            final(self).ifds@ == (if old(self).contains(ifd.offset) {
                old(self).ifds@
            } else {
                old(self).ifds@.push(ifd)
            }),
            final(self).thumbnail == old(self).thumbnail,
            final(self).raw_image == old(self).raw_image,
            old(self).wf() ==> final(self).wf(),
            forall|o: usize| #[trigger]
                final(self).contains(o) <==> old(self).contains(o) || o == ifd.offset,
    {
        let ghost before = self.offsets();
        match self.position(ifd.offset) {
            Some(i) => {
                assert(self.contains(ifd.offset)) by {
                    assert(self.offsets()[i as int] == ifd.offset);
                }
            },
            None => {
                let ghost o = ifd.offset;
                self.ifds.push(ifd);
                assert(self.offsets() =~= before.push(o));
                assert forall|x: usize| #[trigger] self.contains(x) <==> before.contains(x) || x == o by {
                    if x == o {
                        assert(self.offsets()[before.len() as int] == o);
                    }
                    if before.contains(x) {
                        let j = choose|j: int| 0 <= j < before.len() && before[j] == x;
                        assert(self.offsets()[j] == x);
                    }
                    if self.contains(x) && x != o {
                        let j = choose|j: int| 0 <= j < self.offsets().len() && self.offsets()[j] == x;
                        assert(before[j] == x);
                    }
                }
            },
        }
    }
}

} // verus!

verus! {

proof fn lemma_offsets_error_persists(values: Seq<DataType>, k: int)
    requires
        0 <= k <= values.len(),
        offsets_of(values.subrange(0, k)) is Err,
    ensures
        offsets_of(values) == offsets_of(values.subrange(0, k)),
    decreases values.len() - k,
{
    if k < values.len() {
        assert(values.subrange(0, k + 1).drop_last() =~= values.subrange(0, k));
        lemma_offsets_error_persists(values, k + 1);
    } else {
        assert(values.subrange(0, k) =~= values);
    }
}

fn offsets_from_values(values: &Vec<DataType>) -> (r: Result<Vec<usize>, DngError>)
    ensures
        match r {
            Ok(v) => offsets_of(values@) == Ok::<Seq<usize>, DngError>(v@),
            Err(e) => offsets_of(values@) == Err::<Seq<usize>, DngError>(e),
        },
{
    let mut out: Vec<usize> = Vec::new();
    let mut i: usize = 0;
    assert(values@.subrange(0, 0) =~= Seq::<DataType>::empty());
    while i < values.len()
        invariant
            i <= values.len(),
            offsets_of(values@.subrange(0, i as int)) == Ok::<Seq<usize>, DngError>(out@),
        decreases values.len() - i,
    {
        assert(values@.subrange(0, i + 1).drop_last() =~= values@.subrange(0, i as int));
        match values[i].to_usize() {
            Ok(n) => out.push(n),
            Err(e) => {
                proof {
                    lemma_offsets_error_persists(values@, i + 1);
                }
                return Err(e);
            },
        }
        i = i + 1;
    }
    assert(values@.subrange(0, i as int) =~= values@);
    Ok(out)
}

/// The child offsets that a parsed directory names in its Sub-IFD entry.
pub fn sub_ifd_offsets_of(ifd: &IFD, buffer: &Vec<u8>, endian: Endian) -> (r: Result<Vec<usize>, DngError>)
    requires
        ifd_spec(buffer@, ifd.offset as int, endian) == Ok::<
            Map<u16, crate::entry::DirectoryEntry>,
            DngError,
        >(ifd.entries@),
    ensures
        match r {
            Ok(v) => sub_ifd_offsets(buffer@, endian, ifd.offset) == Ok::<Seq<usize>, DngError>(v@),
            Err(e) => sub_ifd_offsets(buffer@, endian, ifd.offset) == Err::<Seq<usize>, DngError>(e),
        },
{
    reveal(sub_ifd_offsets);
    match ifd.entry(SUB_IFD_TAG) {
        None => Ok(Vec::new()),
        Some(entry) => match entry.get_entry_values(buffer, endian) {
            Err(e) => Err(e),
            Ok(data) => offsets_from_values(&data.to_vec()),
        },
    }
}

proof fn lemma_path_prefix(buffer: Seq<u8>, endian: Endian, root: usize, p: Seq<usize>, k: int)
    requires
        is_path(buffer, endian, root, p),
        1 <= k <= p.len(),
    ensures
        is_path(buffer, endian, root, p.subrange(0, k)),
{
    let q = p.subrange(0, k);
    assert forall|j: int| 0 <= j < q.len() - 1 implies #[trigger] link(buffer, endian, q[j], q[j + 1]) by {
        assert(link(buffer, endian, p[j], p[j + 1]));
    }
}

proof fn lemma_path_push(buffer: Seq<u8>, endian: Endian, root: usize, p: Seq<usize>, x: usize)
    requires
        is_path(buffer, endian, root, p),
        link(buffer, endian, p.last(), x),
    ensures
        is_path(buffer, endian, root, p.push(x)),
{
    let q = p.push(x);
    assert forall|j: int| 0 <= j < q.len() - 1 implies #[trigger] link(buffer, endian, q[j], q[j + 1]) by {
        if j < p.len() - 1 {
            assert(link(buffer, endian, p[j], p[j + 1]));
        }
    }
}

/// A chain that repeats a directory can be made as long as wished by going
/// round the loop again.
proof fn lemma_pump(buffer: Seq<u8>, endian: Endian, root: usize, p: Seq<usize>, n: nat) -> (q: Seq<usize>)
    requires
        is_path(buffer, endian, root, p),
        !p.no_duplicates(),
    ensures
        is_path(buffer, endian, root, q),
        q.len() >= n,
    decreases n - p.len(),
{
    if p.len() >= n {
        p
    } else {
        let (i, j) = choose|i: int, j: int| 0 <= i < p.len() && 0 <= j < p.len() && i != j && p[i] == p[j];
        let (a, b) = if i < j { (i, j) } else { (j, i) };
        let q = p.subrange(0, b + 1) + p.subrange(a + 1, p.len() as int);
        assert forall|k: int| 0 <= k < q.len() - 1 implies #[trigger] link(buffer, endian, q[k], q[k + 1]) by {
            if k < b {
                assert(link(buffer, endian, p[k], p[k + 1]));
            } else if k == b {
                assert(q[k] == p[a]);
                assert(q[k + 1] == p[a + 1]);
                assert(link(buffer, endian, p[a], p[a + 1]));
            } else {
                let m = k - b + a;
                assert(q[k] == p[m]);
                assert(q[k + 1] == p[m + 1]);
                assert(link(buffer, endian, p[m], p[m + 1]));
            }
        }
        assert(q[a] == q[b]);
        assert(q.len() == p.len() + b - a);
        if q.len() >= n {
            q
        } else {
            lemma_pump(buffer, endian, root, q, n)
        }
    }
}

/// A sequence without repeats whose elements all occur in `t` is no longer than `t`.
proof fn lemma_distinct_within(s: Seq<usize>, t: Seq<usize>)
    requires
        s.no_duplicates(),
        forall|i: int| 0 <= i < s.len() ==> t.contains(#[trigger] s[i]),
    ensures
        s.len() <= t.len(),
{
    s.unique_seq_to_set();
    t.lemma_cardinality_of_set();
    assert(s.to_set().subset_of(t.to_set()));
    vstd::set_lib::lemma_len_subset(s.to_set(), t.to_set());
}

impl IFDs {
    /// Adds every directory of `level` not yet held, and returns the child
    /// offsets that the directories of `level` name, in order; or the error
    /// of the first directory of `level` that fails to parse or to resolve.
    pub fn insert_subifds(&mut self, buffer: &Vec<u8>, endian: Endian, level: &Vec<usize>) -> (r: Result<
        Vec<usize>,
        DngError,
    >)
        requires
            old(self).wf(),
            old(self).parsed_from(buffer@, endian),
        ensures
            final(self).thumbnail == old(self).thumbnail,
            final(self).raw_image == old(self).raw_image,
            match r {
                Ok(next) => {
                    &&& final(self).wf()
                    &&& final(self).parsed_from(buffer@, endian)
                    &&& forall|o: usize| #[trigger]
                        final(self).contains(o) <==> old(self).contains(o) || level@.contains(o)
                    &&& forall|x: usize| #[trigger]
                        next@.contains(x) <==> exists|j: int|
                            0 <= j < level.len() && #[trigger] link(buffer@, endian, level@[j], x)
                },
                Err(e) => exists|j: int|
                    0 <= j < level.len() && sub_ifd_offsets(buffer@, endian, #[trigger] level@[j])
                        == Err::<Seq<usize>, DngError>(e),
            },
    {
        let mut next: Vec<usize> = Vec::new();
        let mut i: usize = 0;
        while i < level.len()
            invariant
                i <= level.len(),
                self.wf(),
                self.parsed_from(buffer@, endian),
                self.thumbnail == old(self).thumbnail,
                self.raw_image == old(self).raw_image,
                forall|o: usize| #[trigger]
                    self.contains(o) <==> old(self).contains(o) || exists|j: int|
                        0 <= j < i && level@[j] == o,
                forall|x: usize| #[trigger]
                    next@.contains(x) <==> exists|j: int|
                        0 <= j < i && #[trigger] link(buffer@, endian, level@[j], x),
            decreases level.len() - i,
        {
            let offset = level[i];
            let ifd = match IFD::parse_ifd(buffer, offset, endian) {
                Ok(f) => f,
                Err(e) => {
                    assert(sub_ifd_offsets(buffer@, endian, level@[i as int]) == Err::<Seq<usize>, DngError>(e)) by {
                        reveal(sub_ifd_offsets);
                    }
                    return Err(e);
                },
            };
            let mut subs = match sub_ifd_offsets_of(&ifd, buffer, endian) {
                Ok(s) => s,
                Err(e) => {
                    assert(sub_ifd_offsets(buffer@, endian, level@[i as int]) == Err::<Seq<usize>, DngError>(e));
                    return Err(e);
                },
            };
            let ghost children = subs@;
            let ghost before = self.ifds@;
            let ghost next_before = next@;
            self.extend(ifd);
            assert(self.parsed_from(buffer@, endian)) by {
                assert forall|k: int| 0 <= k < self.ifds.len() implies ifd_spec(
                    buffer@,
                    #[trigger] self.ifds@[k].offset as int,
                    endian,
                ) == Ok::<Map<u16, crate::entry::DirectoryEntry>, DngError>(self.ifds@[k].entries@)
                    && sub_ifd_offsets(buffer@, endian, self.ifds@[k].offset) is Ok by {
                    if k < before.len() {
                        assert(self.ifds@[k] == before[k]);
                    }
                }
            }
            next.append(&mut subs);
            i = i + 1;
            assert forall|o: usize| #[trigger]
                self.contains(o) <==> old(self).contains(o) || exists|j: int|
                    0 <= j < i && level@[j] == o by {
                if o == offset {
                    assert(level@[i - 1] == o);
                }
                if exists|j: int| 0 <= j < i && level@[j] == o {
                    let j = choose|j: int| 0 <= j < i && level@[j] == o;
                    if j < i - 1 {
                        assert(exists|j2: int| 0 <= j2 < i - 1 && level@[j2] == o);
                    }
                }
            }
            assert forall|x: usize| #[trigger]
                next@.contains(x) <==> exists|j: int|
                    0 <= j < i && #[trigger] link(buffer@, endian, level@[j], x) by {
                if next@.contains(x) {
                    let k = choose|k: int| 0 <= k < next@.len() && next@[k] == x;
                    if k < next_before.len() {
                        assert(next_before.contains(x));
                    } else {
                        assert(children[k - next_before.len()] == x);
                        assert(link(buffer@, endian, level@[i - 1], x));
                    }
                }
                if exists|j: int| 0 <= j < i && #[trigger] link(buffer@, endian, level@[j], x) {
                    let j = choose|j: int| 0 <= j < i && #[trigger] link(buffer@, endian, level@[j], x);
                    if j < i - 1 {
                        assert(next_before.contains(x));
                        let k = choose|k: int| 0 <= k < next_before.len() && next_before[k] == x;
                        assert(next@[k] == x);
                    } else {
                        assert(children.contains(x));
                        let k = choose|k: int| 0 <= k < children.len() && children[k] == x;
                        assert(next@[next_before.len() + k] == x);
                    }
                }
            }
        }
        assert forall|o: usize| #[trigger]
            self.contains(o) <==> old(self).contains(o) || level@.contains(o) by {
            if level@.contains(o) {
                let j = choose|j: int| 0 <= j < level.len() && level@[j] == o;
                assert(exists|j: int| 0 <= j < i && level@[j] == o);
            }
        }
        Ok(next)
    }
}

} // verus!

verus! {

/// `e` is an error that the tree from `root` gives: a chain that repeats a
/// directory, or a reachable directory that fails to parse or resolve with `e`.
pub open spec fn tree_failure(buffer: Seq<u8>, endian: Endian, root: usize, e: DngError) -> bool {
    ||| (e == DngError::CyclicStructure && exists|p: Seq<usize>| #[trigger]
        is_path(buffer, endian, root, p) && !p.no_duplicates())
    ||| exists|p: Seq<usize>| #[trigger]
        is_path(buffer, endian, root, p) && sub_ifd_offsets(buffer, endian, p.last()) == Err::<
            Seq<usize>,
            DngError,
        >(e)
}

/// `s` holds exactly the directories reachable from `root`, each as the
/// buffer holds it, once, with the thumbnail chosen among them.
pub open spec fn resolved_tree(s: &IFDs, buffer: Seq<u8>, endian: Endian, root: usize) -> bool {
    &&& s.wf()
    &&& s.parsed_from(buffer, endian)
    &&& forall|o: usize| #[trigger] s.contains(o) <==> reachable(buffer, endian, root, o)
    &&& thumbnail_choice(s, buffer, endian, s.thumbnail)
    &&& s.raw_image is None
}

/// Distinct directories each start inside the buffer, so there are no more
/// of them than there are bytes.
proof fn lemma_count_bounded(ifds: &IFDs, buffer: Seq<u8>, endian: Endian)
    requires
        ifds.wf(),
        ifds.parsed_from(buffer, endian),
    ensures
        ifds.ifds.len() <= buffer.len(),
{
    let s = ifds.offsets();
    let t = Seq::new(buffer.len(), |i: int| i as usize);
    assert forall|i: int| 0 <= i < s.len() implies t.contains(#[trigger] s[i]) by {
        assert(ifd_spec(buffer, ifds.ifds@[i].offset as int, endian) is Ok);
        assert(fits(buffer, s[i] as int, 2));
        assert(t[s[i] as int] == s[i]);
    }
    lemma_distinct_within(s, t);
}

/// When every chain of at most `n` directories ends at a directory held and
/// no chain has `n + 1`, the directories held are all those reachable, and
/// the tree resolves without a cycle.
proof fn lemma_tree_complete(ifds: &IFDs, buffer: Seq<u8>, endian: Endian, root: usize, n: int)
    requires
        n >= 0,
        ifds.parsed_from(buffer, endian),
        forall|p: Seq<usize>| #[trigger]
            is_path(buffer, endian, root, p) && p.len() <= n ==> ifds.contains(p.last()),
        forall|p: Seq<usize>| #[trigger] is_path(buffer, endian, root, p) ==> p.len() != n + 1,
    ensures
        tree_resolvable(buffer, endian, root),
        tree_acyclic(buffer, endian, root),
        forall|o: usize| #[trigger] reachable(buffer, endian, root, o) ==> ifds.contains(o),
{
    assert forall|p: Seq<usize>| #[trigger] is_path(buffer, endian, root, p) implies p.len() <= n by {
        if p.len() > n {
            lemma_path_prefix(buffer, endian, root, p, n + 1);
            assert(p.subrange(0, n + 1).len() == n + 1);
        }
    }
    assert forall|p: Seq<usize>| #[trigger]
        is_path(buffer, endian, root, p) implies sub_ifd_offsets(buffer, endian, p.last()) is Ok by {
        assert(ifds.contains(p.last()));
        let i = choose|i: int| 0 <= i < ifds.offsets().len() && ifds.offsets()[i] == p.last();
        assert(ifds.ifds@[i].offset == p.last());
    }
    assert forall|p: Seq<usize>| #[trigger] is_path(buffer, endian, root, p) implies p.no_duplicates() by {
        if !p.no_duplicates() {
            let q = lemma_pump(buffer, endian, root, p, (n + 1) as nat);
        }
    }
    assert forall|o: usize| #[trigger] reachable(buffer, endian, root, o) implies ifds.contains(o) by {
        let p = choose|p: Seq<usize>| #[trigger] is_path(buffer, endian, root, p) && p.last() == o;
    }
}

/// A chain whose directories before the last are all held, and which is
/// longer than one plus the number held, repeats a directory.
proof fn lemma_long_path_repeats(ifds: &IFDs, buffer: Seq<u8>, endian: Endian, root: usize, p: Seq<usize>)
    requires
        is_path(buffer, endian, root, p),
        ifds.ifds.len() + 1 < p.len(),
        forall|q: Seq<usize>| #[trigger]
            is_path(buffer, endian, root, q) && q.len() < p.len() ==> ifds.contains(q.last()),
    ensures
        !p.no_duplicates(),
{
    let q = p.subrange(0, p.len() - 1);
    assert forall|k: int| 0 <= k < q.len() implies ifds.offsets().contains(#[trigger] q[k]) by {
        lemma_path_prefix(buffer, endian, root, p, k + 1);
        assert(p.subrange(0, k + 1).last() == q[k]);
    }
    if p.no_duplicates() {
        assert(q.no_duplicates());
        lemma_distinct_within(q, ifds.offsets());
    }
}

impl IFDs {
    /// Resolves the directory tree of a file: the first directory and all
    /// those reached from it through Sub-IFD pointers, each parsed once and
    /// keyed by its offset, level by level from the first directory.
    ///
    /// A tree in which some chain of pointers returns to a directory on it
    /// fails with `CyclicStructure`; the other errors are those of the
    /// directory that failed to parse or resolve.
    pub fn parse_ifds(buffer: &Vec<u8>, image_file_header: &ImageFileHeader) -> (r: Result<
        Self,
        DngError,
    >)
        ensures
            match r {
                Ok(s) => resolved_tree(&s, buffer@, image_file_header.endian, image_file_header.ifd_offset),
                Err(e) => tree_failure(
                    buffer@,
                    image_file_header.endian,
                    image_file_header.ifd_offset,
                    e,
                ),
            },
            r is Ok <==> tree_resolvable(buffer@, image_file_header.endian, image_file_header.ifd_offset)
                && tree_acyclic(buffer@, image_file_header.endian, image_file_header.ifd_offset),
            tree_resolvable(buffer@, image_file_header.endian, image_file_header.ifd_offset)
                && !tree_acyclic(buffer@, image_file_header.endian, image_file_header.ifd_offset)
                ==> r == Err::<Self, DngError>(DngError::CyclicStructure),
    {
        let endian = image_file_header.endian;
        let root = image_file_header.ifd_offset;
        let ghost buf = buffer@;
        let mut ifds = IFDs::new();
        let mut level: Vec<usize> = vec![root];
        let mut depth: usize = 0;
        proof {
            assert forall|x: usize| #[trigger]
                level@.contains(x) <==> exists|p: Seq<usize>| #[trigger]
                    is_path(buf, endian, root, p) && p.len() == depth + 1 && p.last() == x by {
                if level@.contains(x) {
                    assert(level@[0] == x);
                    assert(is_path(buf, endian, root, seq![root]));
                    assert(seq![root].last() == x);
                }
                if exists|p: Seq<usize>| #[trigger]
                    is_path(buf, endian, root, p) && p.len() == depth + 1 && p.last() == x {
                    assert(level@[0] == x);
                }
            }
        }
        loop
            invariant
                endian == image_file_header.endian,
                root == image_file_header.ifd_offset,
                buf == buffer@,
                ifds.wf(),
                ifds.parsed_from(buf, endian),
                ifds.thumbnail is None,
                ifds.raw_image is None,
                forall|o: usize| #[trigger] ifds.contains(o) ==> reachable(buf, endian, root, o),
                forall|p: Seq<usize>| #[trigger]
                    is_path(buf, endian, root, p) && p.len() <= depth ==> ifds.contains(p.last()),
                forall|x: usize| #[trigger]
                    level@.contains(x) <==> exists|p: Seq<usize>| #[trigger]
                        is_path(buf, endian, root, p) && p.len() == depth + 1 && p.last() == x,
                depth <= ifds.ifds.len(),
                ifds.ifds.len() <= buf.len(),
            decreases buf.len() - depth,
        {
            let ghost before = ifds;
            let next = match ifds.insert_subifds(buffer, endian, &level) {
                Ok(n) => n,
                Err(e) => {
                    proof {
                        let j = choose|j: int|
                            0 <= j < level.len() && sub_ifd_offsets(buf, endian, #[trigger] level@[j])
                                == Err::<Seq<usize>, DngError>(e);
                        assert(level@.contains(level@[j]));
                        let p = choose|p: Seq<usize>| #[trigger]
                            is_path(buf, endian, root, p) && p.len() == depth + 1 && p.last()
                                == level@[j];
                        assert(is_path(buf, endian, root, p) && sub_ifd_offsets(buf, endian, p.last())
                            == Err::<Seq<usize>, DngError>(e));
                    }
                    return Err(e);
                },
            };
            proof {
                lemma_count_bounded(&ifds, buf, endian);
                assert forall|o: usize| #[trigger] ifds.contains(o) implies reachable(
                    buf,
                    endian,
                    root,
                    o,
                ) by {
                    if !before.contains(o) {
                        assert(level@.contains(o));
                    }
                }
                assert forall|p: Seq<usize>| #[trigger]
                    is_path(buf, endian, root, p) && p.len() <= depth + 1 implies ifds.contains(
                    p.last(),
                ) by {
                    if p.len() == depth + 1 {
                        assert(level@.contains(p.last()));
                    }
                }
                assert forall|x: usize| #[trigger]
                    next@.contains(x) <==> exists|p: Seq<usize>| #[trigger]
                        is_path(buf, endian, root, p) && p.len() == depth + 2 && p.last() == x by {
                    if next@.contains(x) {
                        let j = choose|j: int|
                            0 <= j < level.len() && #[trigger] link(buf, endian, level@[j], x);
                        assert(level@.contains(level@[j]));
                        let q = choose|q: Seq<usize>| #[trigger]
                            is_path(buf, endian, root, q) && q.len() == depth + 1 && q.last()
                                == level@[j];
                        lemma_path_push(buf, endian, root, q, x);
                        assert(q.push(x).last() == x);
                    }
                    if exists|p: Seq<usize>| #[trigger]
                        is_path(buf, endian, root, p) && p.len() == depth + 2 && p.last() == x {
                        let p = choose|p: Seq<usize>| #[trigger]
                            is_path(buf, endian, root, p) && p.len() == depth + 2 && p.last() == x;
                        let q = p.subrange(0, depth + 1);
                        lemma_path_prefix(buf, endian, root, p, depth + 1);
                        assert(q.last() == p[depth as int]);
                        assert(level@.contains(q.last()));
                        let j = choose|j: int| 0 <= j < level.len() && level@[j] == q.last();
                        assert(link(buf, endian, p[depth as int], p[depth + 1]));
                        assert(link(buf, endian, level@[j], x));
                    }
                }
            }
            if next.len() == 0 {
                proof {
                    assert forall|p: Seq<usize>| #[trigger]
                        is_path(buf, endian, root, p) implies p.len() != depth + 2 by {
                        if p.len() == depth + 2 {
                            assert(next@.contains(p.last()));
                        }
                    }
                    lemma_tree_complete(&ifds, buf, endian, root, depth + 1);
                }
                let ghost done = ifds;
                ifds.thumbnail = ifds.select_thumbnail(buffer, endian);
                proof {
                    assert(ifds.offsets() == done.offsets());
                    assert forall|o: usize| #[trigger]
                        ifds.contains(o) <==> reachable(buf, endian, root, o) by {
                        assert(done.contains(o) ==> reachable(buf, endian, root, o));
                        assert(reachable(buf, endian, root, o) ==> done.contains(o));
                    }
                }
                return Ok(ifds);
            }
            if ifds.ifds.len() <= depth {
                proof {
                    assert(next@.contains(next@[0]));
                    let p = choose|p: Seq<usize>| #[trigger]
                        is_path(buf, endian, root, p) && p.len() == depth + 2 && p.last() == next@[0];
                    lemma_long_path_repeats(&ifds, buf, endian, root, p);
                }
                return Err(DngError::CyclicStructure);
            }
            level = next;
            depth = depth + 1;
        }
    }
}

} // verus!

verus! {

/// A resolved tree holds the first directory and every directory that the
/// first one names in its Sub-IFD entry.
pub proof fn lemma_root_and_children_held(s: &IFDs, buffer: Seq<u8>, endian: Endian, root: usize, child: usize)
    requires
        resolved_tree(s, buffer, endian, root),
        link(buffer, endian, root, child),
    ensures
        s.contains(root),
        s.contains(child),
{
    let p = seq![root];
    assert(is_path(buffer, endian, root, p));
    assert(reachable(buffer, endian, root, p.last()));
    lemma_path_push(buffer, endian, root, p, child);
    assert(reachable(buffer, endian, root, p.push(child).last()));
}

} // verus!
