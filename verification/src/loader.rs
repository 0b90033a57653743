//! The directory resolver and unit loader.
//!
//! All reading of real directories is done by the embedding program, which
//! hands the loader an in-memory snapshot: for every search root, the
//! plain files (name and content) and the drop-in directories (name and
//! contained files).  Everything that decides *which* fragment backs a
//! unit, in what order drop-ins apply and how they merge is verified here.
//!
//! Precedence rules: search roots are scanned in caller order and the
//! first root holding the backing fragment wins; drop-in candidate
//! directories are taken most specific first (`<fullname>.d`, then each
//! hyphen-segmented prefix longest to shortest as `<prefix>-.<suffix>.d`,
//! then `<suffix>.d`); within one directory the `.conf` files apply in
//! lexicographic filename order; every drop-in applies as a patch, whose
//! entries append to the matching section so that a later value shadows an
//! earlier one under last-wins lookup.

use vstd::prelude::*;
use crate::error::Error;
use crate::parser::{parse, parse_model, Entry, EntryModel, ParseErr, Section, SectionModel};
use crate::specifiers::{resolve_value, resolve_value_model, ContextModel, SpecifierContext};
use crate::template::{
    classify_name, materialize_instance, materialize_spec, unit_type, UnitClass, UnitType,
};
use crate::text::{chars_of, ends_with, lex_le, split_on, split_vec, string_from_chars, vec_lex_le};

verus! {

// ---------------------------------------------------------------------------
// The snapshot
// ---------------------------------------------------------------------------

/// One file of a snapshot: its name and its raw text.
#[derive(Debug)]
pub struct UnitFile {
    pub name: String,
    pub content: String,
}

/// The model of a [`UnitFile`].
pub struct FileModel {
    pub name: Seq<char>,
    pub content: Seq<char>,
}

impl View for UnitFile {
    type V = FileModel;

    open spec fn view(&self) -> FileModel {
        FileModel { name: self.name@, content: self.content@ }
    }
}

impl DeepView for UnitFile {
    type V = FileModel;

    open spec fn deep_view(&self) -> FileModel {
        self.view()
    }
}

/// One directory that may hold drop-in fragments.
#[derive(Debug)]
pub struct DropinDir {
    pub name: String,
    pub files: Vec<UnitFile>,
}

/// The model of a [`DropinDir`].
pub struct DirModel {
    pub name: Seq<char>,
    pub files: Seq<FileModel>,
}

impl View for DropinDir {
    type V = DirModel;

    open spec fn view(&self) -> DirModel {
        DirModel { name: self.name@, files: self.files.deep_view() }
    }
}

impl DeepView for DropinDir {
    type V = DirModel;

    open spec fn deep_view(&self) -> DirModel {
        self.view()
    }
}

/// The snapshot of one search root: its path, its plain files and its
/// subdirectories.
#[derive(Debug)]
pub struct SearchRoot {
    pub path: String,
    pub files: Vec<UnitFile>,
    pub dirs: Vec<DropinDir>,
}

/// The model of a [`SearchRoot`].
pub struct RootModel {
    pub path: Seq<char>,
    pub files: Seq<FileModel>,
    pub dirs: Seq<DirModel>,
}

impl View for SearchRoot {
    type V = RootModel;

    open spec fn view(&self) -> RootModel {
        RootModel { path: self.path@, files: self.files.deep_view(), dirs: self.dirs.deep_view() }
    }
}

impl DeepView for SearchRoot {
    type V = RootModel;

    open spec fn deep_view(&self) -> RootModel {
        self.view()
    }
}

/// A loaded, fully merged unit: its section and entry stream, plus the
/// paths of drop-in files that failed to parse and were skipped (for the
/// embedding program to log).
#[derive(Debug)]
pub struct MergedUnit {
    pub sections: Vec<Section>,
    pub skipped: Vec<String>,
}

/// The model of a [`MergedUnit`].
pub struct MergedModel {
    pub sections: Seq<SectionModel>,
    pub skipped: Seq<Seq<char>>,
}

impl View for MergedUnit {
    type V = MergedModel;

    open spec fn view(&self) -> MergedModel {
        MergedModel { sections: self.sections.deep_view(), skipped: self.skipped.deep_view() }
    }
}

// ---------------------------------------------------------------------------
// Names
// ---------------------------------------------------------------------------

/// The full unit filename: the configured suffix is appended when absent.
pub open spec fn full_name_of(name: Seq<char>, suffix: Seq<char>) -> Seq<char> {
    if ends_with(name, seq!['.'] + suffix) {
        name
    } else {
        name + seq!['.'] + suffix
    }
}

/// Joins name pieces with hyphens.
pub open spec fn join_hyphen(ps: Seq<Seq<char>>) -> Seq<char>
    decreases ps.len(),
{
    if ps.len() == 0 {
        Seq::<char>::empty()
    } else if ps.len() == 1 {
        ps[0]
    } else {
        ps[0] + seq!['-'] + join_hyphen(ps.drop_first())
    }
}

/// The segmented-prefix candidates, longest prefix first: for each `i`
/// from `k` down to 1, `<first i segments>-.<suffix>.d`.
pub open spec fn seg_candidates(segs: Seq<Seq<char>>, suffix: Seq<char>, k: int) -> Seq<Seq<char>>
    decreases k,
{
    if k < 1 {
        Seq::<Seq<char>>::empty()
    } else {
        seq![join_hyphen(segs.take(k)) + seq!['-', '.'] + suffix + seq!['.', 'd']]
            + seg_candidates(segs, suffix, k - 1)
    }
}

/// The drop-in candidate directory names, most specific first:
/// `<fullname>.d`, then the hyphen-segmented prefixes longest to shortest
/// as `<prefix>-.<suffix>.d`, then `<suffix>.d`.
pub open spec fn dropin_candidates(full: Seq<char>, suffix: Seq<char>) -> Seq<Seq<char>> {
    let segs = split_on(full, '-');
    seq![full + seq!['.', 'd']] + seg_candidates(segs, suffix, segs.len() - 1) + seq![
        suffix + seq!['.', 'd'],
    ]
}

proof fn lemma_join_hyphen_snoc(ps: Seq<Seq<char>>, j: int)
    requires
        1 <= j < ps.len(),
    ensures
        join_hyphen(ps.take(j + 1)) == join_hyphen(ps.take(j)) + seq!['-'] + ps[j],
    decreases j,
{
    if j == 1 {
        let t2 = ps.take(2);
        assert(t2.len() == 2);
        assert(t2.drop_first() =~= seq![ps[1]]);
        assert(join_hyphen(t2) == t2[0] + seq!['-'] + join_hyphen(seq![ps[1]]));
        assert(ps.take(1) =~= seq![ps[0]]);
        assert(join_hyphen(ps.take(1)) == ps[0]);
    } else {
        lemma_join_hyphen_snoc(ps.drop_first(), j - 1);
        assert(ps.take(j + 1).drop_first() =~= ps.drop_first().take(j));
        assert(ps.take(j).drop_first() =~= ps.drop_first().take(j - 1));
        assert(ps.take(j + 1)[0] == ps[0]);
        assert(ps.take(j)[0] == ps[0]);
        assert(ps.drop_first()[j - 1] == ps[j]);
        assert(join_hyphen(ps.take(j + 1)) == ps[0] + seq!['-'] + join_hyphen(
            ps.drop_first().take(j),
        ));
        assert(join_hyphen(ps.take(j)) == ps[0] + seq!['-'] + join_hyphen(
            ps.drop_first().take(j - 1),
        ));
        assert((ps[0] + seq!['-'] + (join_hyphen(ps.drop_first().take(j - 1)) + seq!['-']
            + ps.drop_first()[j - 1])) =~= (ps[0] + seq!['-'] + join_hyphen(
            ps.drop_first().take(j - 1),
        )) + seq!['-'] + ps[j]);
    }
}

/// Computes the candidate directory names.
pub fn candidate_dirs(full: &str, suffix: &str) -> (r: Vec<String>)
    ensures
        r.deep_view() == dropin_candidates(full@, suffix@),
{
    proof {
        reveal_strlit(".d");
        assert(".d"@ =~= seq!['.', 'd']);
        reveal_strlit("-.");
        assert("-."@ =~= seq!['-', '.']);
    }
    let mut out: Vec<String> = Vec::new();
    out.push(String::from_str(full).concat(".d"));
    let ghost segs = split_on(full@, '-');
    let parts = split_vec(&chars_of(full), '-');
    proof {
        assert(parts.deep_view() == segs);
        assert(parts.deep_view().len() == parts@.len());
    }
    let n: usize = parts.len();
    // longest prefix first: i = n-1 down to 1
    let mut i: usize = n - 1;
    let ghost head = seq![full@ + seq!['.', 'd']];
    let ghost all = seg_candidates(segs, suffix@, segs.len() - 1);
    proof {
        assert(out.deep_view() =~~= head + all.take(0));
    }
    while i >= 1
        invariant
            i <= n - 1,
            n >= 1,
            n == segs.len(),
            parts.deep_view() == segs,
            n == parts@.len(),
            head == seq![full@ + seq!['.', 'd']],
            all == seg_candidates(segs, suffix@, segs.len() - 1),
            out.deep_view() =~~= head + all.take(n - 1 - i),
        decreases i,
    {
        // build join_hyphen(segs.take(i))
        let mut joined: Vec<char> = Vec::new();
        let mut j: usize = 0;
        while j < i
            invariant
                j <= i,
                i <= n - 1,
                n == segs.len(),
                parts.deep_view() == segs,
                n == parts@.len(),
                j == 0 ==> joined@ == Seq::<char>::empty(),
                j >= 1 ==> joined@ == join_hyphen(segs.take(j as int)),
            decreases i - j,
        {
            if j > 0 {
                joined.push('-');
            }
            let ghost jv = joined@;
            let part = &parts[j];
            proof {
                assert(parts.deep_view()[j as int] == parts@[j as int]@);
            }
            let m: usize = part.len();
            let mut k: usize = 0;
            while k < m
                invariant
                    k <= m,
                    m == part@.len(),
                    joined@ == jv + part@.take(k as int),
                decreases m - k,
            {
                let c = part[k];
                joined.push(c);
                proof {
                    assert(joined@ =~= jv + part@.take(k + 1));
                }
                k = k + 1;
            }
            proof {
                assert(part@.take(m as int) =~= part@);
                assert(joined@ =~= jv + segs[j as int]);
                if j == 0 {
                    assert(segs.take(1) =~= seq![segs[0]]);
                    assert(joined@ =~= join_hyphen(segs.take(1)));
                } else {
                    lemma_join_hyphen_snoc(segs, j as int);
                    assert(joined@ =~= join_hyphen(segs.take(j + 1)));
                }
            }
            j = j + 1;
        }
        proof {
            assert(i >= 1);
            assert(joined@ == join_hyphen(segs.take(i as int)));
        }
        let joined_s = string_from_chars(&joined);
        let cand = joined_s.concat("-.").concat(suffix).concat(".d");
        let ghost candm = join_hyphen(segs.take(i as int)) + seq!['-', '.'] + suffix@ + seq![
            '.',
            'd',
        ];
        proof {
            reveal_strlit("-.");
            reveal_strlit(".d");
            assert("-."@ =~= seq!['-', '.']);
            assert(".d"@ =~= seq!['.', 'd']);
            assert(cand@ =~= candm);
        }
        let ghost out0 = out.deep_view();
        out.push(cand);
        proof {
            assert(out.deep_view() =~~= out0.push(candm));
            lemma_seg_candidates_index(segs, suffix@, segs.len() - 1, i as int);
            assert(all[segs.len() - 1 - i] == candm);
            assert(all.take(n - 1 - i).push(all[n - 1 - i]) =~~= all.take(n - 1 - (i - 1)));
            assert(out.deep_view() =~~= head + all.take(n - 1 - (i - 1)));
        }
        i = i - 1;
    }
    proof {
        lemma_seg_candidates_len(segs, suffix@, segs.len() - 1);
        assert(all.take(n - 1) =~~= all);
        assert(out.deep_view() =~~= head + all);
    }
    let ghost out1 = out.deep_view();
    out.push(String::from_str(suffix).concat(".d"));
    proof {
        assert(out.deep_view() =~~= out1.push(suffix@ + seq!['.', 'd']));
        assert(out.deep_view() =~~= dropin_candidates(full@, suffix@));
    }
    out
}

proof fn lemma_seg_candidates_len(segs: Seq<Seq<char>>, suffix: Seq<char>, k: int)
    ensures
        seg_candidates(segs, suffix, k).len() == if k < 1 {
            0
        } else {
            k
        },
    decreases k,
{
    if k >= 1 {
        lemma_seg_candidates_len(segs, suffix, k - 1);
    }
}

/// Entry `k - i` of the candidate list for prefixes `k` down to 1 is the
/// one built from the first `i` segments.
proof fn lemma_seg_candidates_index(segs: Seq<Seq<char>>, suffix: Seq<char>, k: int, i: int)
    requires
        1 <= i <= k,
    ensures
        seg_candidates(segs, suffix, k).len() == k,
        seg_candidates(segs, suffix, k)[k - i] == join_hyphen(segs.take(i)) + seq!['-', '.']
            + suffix + seq!['.', 'd'],
        seg_candidates(segs, suffix, k).skip(k - i).drop_first() =~~= seg_candidates(
            segs,
            suffix,
            k,
        ).skip(k - i + 1),
    decreases k,
{
    lemma_seg_candidates_len(segs, suffix, k);
    if i == k {
    } else {
        lemma_seg_candidates_index(segs, suffix, k - 1, i);
        assert(seg_candidates(segs, suffix, k)[k - i] == seg_candidates(segs, suffix, k - 1)[k - 1
            - i]);
    }
}

// ---------------------------------------------------------------------------
// Drop-in files: filter and lexicographic sort
// ---------------------------------------------------------------------------

/// The files whose names end in `.conf`, in directory order.
pub open spec fn conf_files(fs: Seq<FileModel>) -> Seq<FileModel>
    decreases fs.len(),
{
    if fs.len() == 0 {
        fs
    } else if ends_with(fs[0].name, ".conf"@) {
        seq![fs[0]] + conf_files(fs.drop_first())
    } else {
        conf_files(fs.drop_first())
    }
}

/// Inserts `f` behind every already-sorted file whose name is
/// lexicographically at most `f`'s: insertion keeps equal names stable.
pub open spec fn insert_file(sorted: Seq<FileModel>, f: FileModel) -> Seq<FileModel>
    decreases sorted.len(),
{
    if sorted.len() == 0 {
        seq![f]
    } else if lex_le(sorted.last().name, f.name) {
        sorted.push(f)
    } else {
        insert_file(sorted.drop_last(), f).push(sorted.last())
    }
}

/// Insertion sort by filename.
pub open spec fn sort_files(fs: Seq<FileModel>) -> Seq<FileModel>
    decreases fs.len(),
{
    if fs.len() == 0 {
        fs
    } else {
        insert_file(sort_files(fs.drop_last()), fs.last())
    }
}

proof fn lemma_insert_at(sorted: Seq<FileModel>, f: FileModel, j: int)
    requires
        0 <= j <= sorted.len(),
        forall|k: int| j <= k < sorted.len() ==> !lex_le(#[trigger] sorted[k].name, f.name),
        j == 0 || lex_le(sorted[j - 1].name, f.name),
    ensures
        insert_file(sorted, f) == sorted.take(j) + seq![f] + sorted.skip(j),
    decreases sorted.len(),
{
    if j == sorted.len() {
        if sorted.len() == 0 {
            assert(insert_file(sorted, f) =~~= sorted.take(j) + seq![f] + sorted.skip(j));
        } else {
            assert(lex_le(sorted.last().name, f.name));
            assert(sorted.take(j) =~~= sorted);
            assert(sorted.skip(j) =~~= Seq::<FileModel>::empty());
            assert(insert_file(sorted, f) =~~= sorted.take(j) + seq![f] + sorted.skip(j));
        }
    } else {
        assert(!lex_le(sorted[sorted.len() - 1].name, f.name));
        assert(forall|k: int|
            j <= k < sorted.drop_last().len() ==> !lex_le(
                #[trigger] sorted.drop_last()[k].name,
                f.name,
            ));
        lemma_insert_at(sorted.drop_last(), f, j);
        assert(insert_file(sorted, f) == insert_file(sorted.drop_last(), f).push(sorted.last()));
        assert((sorted.drop_last().take(j) + seq![f] + sorted.drop_last().skip(j)).push(
            sorted.last(),
        ) =~~= sorted.take(j) + seq![f] + sorted.skip(j));
    }
}

proof fn lemma_conf_snoc(fs: Seq<FileModel>, i: int)
    requires
        0 <= i < fs.len(),
    ensures
        conf_files(fs.take(i + 1)) == if ends_with(fs[i].name, ".conf"@) {
            conf_files(fs.take(i)).push(fs[i])
        } else {
            conf_files(fs.take(i))
        },
    decreases fs.len(),
{
    if i == 0 {
        assert(fs.take(1) =~~= seq![fs[0]]);
        assert(fs.take(0) =~~= Seq::<FileModel>::empty());
        assert(seq![fs[0]].drop_first() =~~= Seq::<FileModel>::empty());
        assert(conf_files(Seq::<FileModel>::empty()) =~~= Seq::<FileModel>::empty());
        if ends_with(fs[0].name, ".conf"@) {
            assert(conf_files(fs.take(1)) =~~= seq![fs[0]] + conf_files(
                Seq::<FileModel>::empty(),
            ));
            assert(conf_files(fs.take(1)) =~~= Seq::<FileModel>::empty().push(fs[0]));
        }
    } else {
        assert(fs.take(i + 1)[0] == fs[0]);
        assert(fs.take(i)[0] == fs[0]);
        assert(fs.take(i + 1).drop_first() =~~= fs.drop_first().take(i));
        assert(fs.take(i).drop_first() =~~= fs.drop_first().take(i - 1));
        assert(fs.drop_first()[i - 1] == fs[i]);
        lemma_conf_snoc(fs.drop_first(), i - 1);
        if ends_with(fs[0].name, ".conf"@) {
            if ends_with(fs[i].name, ".conf"@) {
                assert(seq![fs[0]] + conf_files(fs.drop_first().take(i - 1)).push(fs[i]) =~~= (
                seq![fs[0]] + conf_files(fs.drop_first().take(i - 1))).push(fs[i]));
            }
        }
    }
}

/// The files of `fs` selected by the index list `idx`.
pub open spec fn sel_files(fs: Seq<FileModel>, idx: Seq<usize>) -> Seq<FileModel> {
    Seq::new(idx.len(), |k: int| fs[idx[k] as int])
}

/// The indices of the `.conf` files of `files`, ordered so that the named
/// files come lexicographically: exactly the insertion sort of the `.conf`
/// sublist.
fn sorted_conf_indices(files: &Vec<UnitFile>) -> (r: Vec<usize>)
    ensures
        forall|k: int| 0 <= k < r@.len() ==> r@[k] < files@.len(),
        sel_files(files.deep_view(), r@) == sort_files(conf_files(files.deep_view())),
{
    let ghost fdv = files.deep_view();
    let n: usize = files.len();
    let mut sel: Vec<usize> = Vec::new();
    let mut i: usize = 0;
    proof {
        assert(fdv.len() == files@.len());
        assert(fdv.take(0) =~~= Seq::<FileModel>::empty());
        assert(sel_files(fdv, sel@) =~~= sort_files(conf_files(fdv.take(0))));
    }
    while i < n
        invariant
            i <= n,
            n == files@.len(),
            fdv == files.deep_view(),
            fdv.len() == n,
            forall|k: int| 0 <= k < sel@.len() ==> sel@[k] < n,
            sel_files(fdv, sel@) == sort_files(conf_files(fdv.take(i as int))),
        decreases n - i,
    {
        proof {
            assert(fdv[i as int] == files@[i as int]@);
            lemma_conf_snoc(fdv, i as int);
        }
        let name_chars = chars_of(files[i].name.as_str());
        if crate::text::vec_ends_with_str(&name_chars, ".conf") {
            let ghost sorted0 = sel_files(fdv, sel@);
            let ghost fm = fdv[i as int];
            // find the insertion point from the back
            let mut j: usize = sel.len();
            while j > 0
                invariant_except_break
                    j <= sel@.len(),
                    n == files@.len(),
                    fdv == files.deep_view(),
                    fdv.len() == n,
                    i < n,
                    fm == fdv[i as int],
                    name_chars@ == files@[i as int].name@,
                    forall|k: int| 0 <= k < sel@.len() ==> sel@[k] < n,
                    sorted0 == sel_files(fdv, sel@),
                    forall|k: int|
                        j <= k < sorted0.len() ==> !lex_le(#[trigger] sorted0[k].name, fm.name),
                ensures
                    j <= sel@.len(),
                    fm == fdv[i as int],
                    forall|k: int| 0 <= k < sel@.len() ==> sel@[k] < n,
                    sorted0 == sel_files(fdv, sel@),
                    forall|k: int|
                        j <= k < sorted0.len() ==> !lex_le(#[trigger] sorted0[k].name, fm.name),
                    j == 0 || lex_le(sorted0[j - 1].name, fm.name),
                decreases j,
            {
                let prev_chars = chars_of(files[sel[j - 1]].name.as_str());
                proof {
                    assert(sorted0[j - 1] == fdv[sel@[j - 1] as int]);
                    assert(fdv[sel@[j - 1] as int].name == files@[sel@[j - 1] as int].name@);
                }
                if vec_lex_le(&prev_chars, &name_chars) {
                    break;
                }
                j = j - 1;
            }
            proof {
                assert(sorted0.len() == sel@.len());
                lemma_insert_at(sorted0, fm, j as int);
            }
            let ghost sel0 = sel@;
            sel.insert(j, i);
            proof {
                assert(sel@ =~= sel0.insert(j as int, i));
                assert(sel_files(fdv, sel@) =~~= sorted0.take(j as int) + seq![fm]
                    + sorted0.skip(j as int));
                let cf = conf_files(fdv.take(i as int));
                assert(cf.push(fm).drop_last() =~~= cf);
                assert(sort_files(cf.push(fm)) == insert_file(sort_files(cf), fm));
                assert(sel_files(fdv, sel@) =~~= sort_files(conf_files(fdv.take(i + 1))));
            }
        }
        i = i + 1;
    }
    proof {
        assert(fdv.take(n as int) =~~= fdv);
    }
    sel
}

// ---------------------------------------------------------------------------
// Lookups
// ---------------------------------------------------------------------------

/// The first file of `fs` with the given name.
pub open spec fn find_named(fs: Seq<FileModel>, name: Seq<char>) -> Option<FileModel>
    decreases fs.len(),
{
    if fs.len() == 0 {
        Option::None
    } else if fs[0].name == name {
        Some(fs[0])
    } else {
        find_named(fs.drop_first(), name)
    }
}

/// The first directory of `ds` with the given name.
pub open spec fn find_dir_named(ds: Seq<DirModel>, name: Seq<char>) -> Option<DirModel>
    decreases ds.len(),
{
    if ds.len() == 0 {
        Option::None
    } else if ds[0].name == name {
        Some(ds[0])
    } else {
        find_dir_named(ds.drop_first(), name)
    }
}

/// The first root whose plain files hold `backing`, with that file:
/// caller-supplied order is first-match-wins.
pub open spec fn find_in_roots(roots: Seq<RootModel>, backing: Seq<char>) -> Option<
    (Seq<char>, FileModel),
>
    decreases roots.len(),
{
    if roots.len() == 0 {
        Option::None
    } else {
        match find_named(roots[0].files, backing) {
            Option::Some(f) => Some((roots[0].path, f)),
            Option::None => find_in_roots(roots.drop_first(), backing),
        }
    }
}

fn find_file_pos(files: &Vec<UnitFile>, name: &str) -> (r: Option<usize>)
    ensures
        match r {
            Some(i) => i < files@.len() && find_named(files.deep_view(), name@) == Some(
                files.deep_view()[i as int],
            ),
            Option::None => find_named(files.deep_view(), name@) is None,
        },
{
    let ghost fdv = files.deep_view();
    let n: usize = files.len();
    let mut i: usize = 0;
    proof {
        assert(fdv.skip(0) =~~= fdv);
    }
    while i < n
        invariant
            i <= n,
            n == files@.len(),
            fdv == files.deep_view(),
            fdv.len() == n,
            find_named(fdv, name@) == find_named(fdv.skip(i as int), name@),
        decreases n - i,
    {
        proof {
            assert(fdv.skip(i as int)[0] == fdv[i as int]);
            assert(fdv[i as int] == files@[i as int]@);
            assert(fdv.skip(i as int).drop_first() =~= fdv.skip(i + 1));
        }
        if crate::text::str_eq(files[i].name.as_str(), name) {
            return Some(i);
        }
        i = i + 1;
    }
    proof {
        assert(fdv.skip(n as int) =~= Seq::<FileModel>::empty());
    }
    Option::None
}

fn find_dir_pos(dirs: &Vec<DropinDir>, name: &str) -> (r: Option<usize>)
    ensures
        match r {
            Some(i) => i < dirs@.len() && find_dir_named(dirs.deep_view(), name@) == Some(
                dirs.deep_view()[i as int],
            ),
            Option::None => find_dir_named(dirs.deep_view(), name@) is None,
        },
{
    let ghost ddv = dirs.deep_view();
    let n: usize = dirs.len();
    let mut i: usize = 0;
    proof {
        assert(ddv.skip(0) =~~= ddv);
    }
    while i < n
        invariant
            i <= n,
            n == dirs@.len(),
            ddv == dirs.deep_view(),
            ddv.len() == n,
            find_dir_named(ddv, name@) == find_dir_named(ddv.skip(i as int), name@),
        decreases n - i,
    {
        proof {
            assert(ddv.skip(i as int)[0] == ddv[i as int]);
            assert(ddv[i as int] == dirs@[i as int]@);
            assert(ddv.skip(i as int).drop_first() =~= ddv.skip(i + 1));
        }
        if crate::text::str_eq(dirs[i].name.as_str(), name) {
            return Some(i);
        }
        i = i + 1;
    }
    proof {
        assert(ddv.skip(n as int) =~= Seq::<DirModel>::empty());
    }
    Option::None
}

/// The index of the first section with the given name, or `-1`.
pub open spec fn find_section_idx(ss: Seq<SectionModel>, name: Seq<char>) -> int
    decreases ss.len(),
{
    if ss.len() == 0 {
        -1
    } else if ss[0].name == name {
        0
    } else {
        let r = find_section_idx(ss.drop_first(), name);
        if r < 0 {
            -1
        } else {
            r + 1
        }
    }
}

fn find_section_pos(sections: &Vec<Section>, name: &String) -> (r: Option<usize>)
    ensures
        match r {
            Some(i) => i < sections@.len() && find_section_idx(sections.deep_view(), name@)
                == i as int,
            Option::None => find_section_idx(sections.deep_view(), name@) == -1,
        },
{
    let ghost sdv = sections.deep_view();
    let n: usize = sections.len();
    let mut i: usize = 0;
    proof {
        assert(sdv.skip(0) =~~= sdv);
    }
    while i < n
        invariant
            i <= n,
            n == sections@.len(),
            sdv == sections.deep_view(),
            sdv.len() == n,
            find_section_idx(sdv, name@) == if find_section_idx(sdv.skip(i as int), name@) < 0 {
                -1int
            } else {
                i + find_section_idx(sdv.skip(i as int), name@)
            },
        decreases n - i,
    {
        proof {
            assert(sdv.skip(i as int)[0] == sdv[i as int]);
            assert(sdv[i as int] == sections@[i as int]@);
            assert(sdv.skip(i as int).drop_first() =~= sdv.skip(i + 1));
        }
        if crate::text::str_eq(sections[i].name.as_str(), name.as_str()) {
            return Some(i);
        }
        i = i + 1;
    }
    proof {
        assert(sdv.skip(n as int) =~= Seq::<SectionModel>::empty());
    }
    Option::None
}

// ---------------------------------------------------------------------------
// Parsing with resolution, and patching
// ---------------------------------------------------------------------------

/// One section with every entry value specifier-resolved.
pub open spec fn resolve_section_model(
    s: SectionModel,
    c: ContextModel,
    filename: Seq<char>,
    path: Seq<char>,
) -> SectionModel {
    SectionModel {
        name: s.name,
        entries: s.entries.map_values(
            |e: EntryModel| EntryModel {
                key: e.key,
                value: resolve_value_model(e.value, c, filename, path),
            },
        ),
    }
}

/// A document with every entry value specifier-resolved, once.
pub open spec fn resolve_sections_model(
    ss: Seq<SectionModel>,
    c: ContextModel,
    filename: Seq<char>,
    path: Seq<char>,
) -> Seq<SectionModel> {
    ss.map_values(|s: SectionModel| resolve_section_model(s, c, filename, path))
}

/// Parsing one fragment: the grammar, then one pass of specifier
/// resolution over every value.
pub open spec fn parse_unit_model(
    text: Seq<char>,
    allow_empty: bool,
    c: ContextModel,
    filename: Seq<char>,
    path: Seq<char>,
) -> Result<Seq<SectionModel>, ParseErr> {
    match parse_model(text, allow_empty) {
        Err(e) => Err(e),
        Ok(ss) => Ok(resolve_sections_model(ss, c, filename, path)),
    }
}

fn resolve_doc(doc: Vec<Section>, context: &SpecifierContext, filename: &str, path: &str) -> (r:
    Vec<Section>)
    ensures
        r.deep_view() == resolve_sections_model(doc.deep_view(), context@, filename@, path@),
{
    let ghost orig = doc.deep_view();
    let mut rest = doc;
    let mut out: Vec<Section> = Vec::new();
    proof {
        assert(rest.deep_view() =~~= orig.skip(0));
        assert(out.deep_view() =~~= resolve_sections_model(orig, context@, filename@, path@).take(
            0,
        ));
    }
    let ghost total = resolve_sections_model(orig, context@, filename@, path@);
    let ghost mut i: int = 0;
    while rest.len() > 0
        invariant
            0 <= i <= orig.len(),
            rest.deep_view() == orig.skip(i),
            total == resolve_sections_model(orig, context@, filename@, path@),
            out.deep_view() == total.take(i),
        decreases rest.len(),
    {
        proof {
            assert(orig.skip(i).len() == orig.len() - i);
        }
        let ghost rdv0 = rest.deep_view();
        let sec = rest.remove(0);
        proof {
            assert(rest.deep_view() =~~= rdv0.drop_first());
            assert(rest.deep_view() =~~= orig.skip(i + 1));
            assert(sec@ == orig.skip(i)[0]);
            assert(sec@ == orig[i]);
        }
        let ghost secm = sec@;
        let mut ents = sec.entries;
        let ghost ents_orig = ents.deep_view();
        let mut new_entries: Vec<Entry> = Vec::new();
        let ghost ents_total = secm.entries.map_values(
            |e: EntryModel| EntryModel {
                key: e.key,
                value: resolve_value_model(e.value, context@, filename@, path@),
            },
        );
        let ghost mut j: int = 0;
        proof {
            assert(ents.deep_view() =~~= ents_orig.skip(0));
            assert(new_entries.deep_view() =~~= ents_total.take(0));
        }
        while ents.len() > 0
            invariant
                0 <= j <= ents_orig.len(),
                ents.deep_view() == ents_orig.skip(j),
                ents_orig == secm.entries,
                ents_total == secm.entries.map_values(
                    |e: EntryModel| EntryModel {
                        key: e.key,
                        value: resolve_value_model(e.value, context@, filename@, path@),
                    },
                ),
                new_entries.deep_view() == ents_total.take(j),
            decreases ents.len(),
        {
            proof {
                assert(ents_orig.skip(j).len() == ents_orig.len() - j);
            }
            let ghost edv0 = ents.deep_view();
            let e = ents.remove(0);
            proof {
                assert(ents.deep_view() =~~= edv0.drop_first());
                assert(ents.deep_view() =~~= ents_orig.skip(j + 1));
                assert(e@ == ents_orig.skip(j)[0]);
                assert(e@ == ents_orig[j]);
            }
            let value = resolve_value(e.value.as_str(), context, filename, path);
            let ghost ne0 = new_entries.deep_view();
            let ghost em = EntryModel { key: e.key@, value: value@ };
            new_entries.push(Entry { key: e.key, value });
            proof {
                assert(new_entries.deep_view() =~~= ne0.push(em));
                assert(ents_total[j] == EntryModel {
                    key: ents_orig[j].key,
                    value: resolve_value_model(ents_orig[j].value, context@, filename@, path@),
                });
                assert(new_entries.deep_view() =~~= ents_total.take(j + 1));
                j = j + 1;
            }
        }
        proof {
            assert(ents_orig.skip(j).len() == 0);
            assert(j == ents_orig.len());
            assert(new_entries.deep_view() =~~= ents_total);
        }
        let ghost out0 = out.deep_view();
        let new_sec = Section { name: sec.name, entries: new_entries };
        let ghost nsm = new_sec@;
        out.push(new_sec);
        proof {
            assert(out.deep_view() =~~= out0.push(nsm));
            assert(total[i] == resolve_section_model(orig[i], context@, filename@, path@));
            assert(nsm =~~= total[i]);
            assert(out.deep_view() =~~= total.take(i + 1));
            i = i + 1;
        }
    }
    proof {
        assert(orig.skip(i).len() == 0);
        assert(i == orig.len());
        assert(out.deep_view() =~~= total);
    }
    out
}

/// One drop-in section applied to the accumulated document: entries of a
/// section that already exists append to it (so a later scalar shadows an
/// earlier one under last-wins lookup, and multi-valued fields
/// accumulate); a new section is added at the end.
pub open spec fn patch_one(base: Seq<SectionModel>, s: SectionModel) -> Seq<SectionModel> {
    let i = find_section_idx(base, s.name);
    if i < 0 {
        base.push(s)
    } else {
        base.update(
            i,
            SectionModel { name: base[i].name, entries: base[i].entries + s.entries },
        )
    }
}

/// A whole drop-in document applied section by section.
pub open spec fn patch_doc(base: Seq<SectionModel>, over: Seq<SectionModel>) -> Seq<SectionModel>
    decreases over.len(),
{
    if over.len() == 0 {
        base
    } else {
        patch_doc(patch_one(base, over[0]), over.drop_first())
    }
}

/// Applies `overlay` as a patch on `base`.
pub fn patch_sections(base: Vec<Section>, overlay: Vec<Section>) -> (r: Vec<Section>)
    ensures
        r.deep_view() == patch_doc(base.deep_view(), overlay.deep_view()),
{
    let ghost base0 = base.deep_view();
    let ghost over0 = overlay.deep_view();
    let mut cur = base;
    let mut rest = overlay;
    proof {
        assert(rest.deep_view() =~~= over0);
        assert(patch_doc(base0, over0) == patch_doc(cur.deep_view(), rest.deep_view()));
    }
    while rest.len() > 0
        invariant
            patch_doc(base0, over0) == patch_doc(cur.deep_view(), rest.deep_view()),
        decreases rest.len(),
    {
        let ghost restm = rest.deep_view();
        let ghost curm = cur.deep_view();
        let mut osec = rest.remove(0);
        proof {
            assert(rest.deep_view() =~~= restm.drop_first());
            assert(osec@ == restm[0]);
        }
        let ghost osecm = osec@;
        match find_section_pos(&cur, &osec.name) {
            Some(i) => {
                let mut sec = cur.remove(i);
                proof {
                    assert(cur.deep_view() =~~= curm.remove(i as int));
                    assert(sec@ == curm[i as int]);
                }
                let ghost secm = sec@;
                let ghost oents = osec.entries.deep_view();
                sec.entries.append(&mut osec.entries);
                proof {
                    assert(sec.entries.deep_view() =~~= secm.entries + oents);
                }
                let ghost merged = SectionModel { name: secm.name, entries: secm.entries + oents };
                cur.insert(i, sec);
                proof {
                    assert(cur.deep_view() =~~= curm.remove(i as int).insert(i as int, merged));
                    assert(curm.remove(i as int).insert(i as int, merged) =~~= curm.update(
                        i as int,
                        merged,
                    ));
                    assert(cur.deep_view() =~~= patch_one(curm, osecm));
                }
            },
            Option::None => {
                let ghost cm0 = cur.deep_view();
                cur.push(osec);
                proof {
                    assert(cur.deep_view() =~~= cm0.push(osecm));
                    assert(cur.deep_view() =~~= patch_one(curm, osecm));
                }
            },
        }
    }
    proof {
        assert(rest.deep_view().len() == 0);
        assert(patch_doc(cur.deep_view(), rest.deep_view()) == cur.deep_view());
    }
    cur
}

// ---------------------------------------------------------------------------
// Applying drop-ins
// ---------------------------------------------------------------------------

/// The accumulated state while drop-ins apply: the merged sections and the
/// paths of skipped (unparsable) drop-in files.
pub struct DropinAcc {
    pub sections: Seq<SectionModel>,
    pub skipped: Seq<Seq<char>>,
}

/// Applies the (already sorted) `.conf` files of one candidate directory,
/// in order; a file that fails to parse is recorded and skipped.
pub open spec fn apply_dir_files(
    acc: DropinAcc,
    fs: Seq<FileModel>,
    c: ContextModel,
    full: Seq<char>,
    dirpath: Seq<char>,
) -> DropinAcc
    decreases fs.len(),
{
    if fs.len() == 0 {
        acc
    } else {
        let f = fs[0];
        let path = dirpath + "/"@ + f.name;
        let acc2 = match parse_unit_model(f.content, true, c, full, path) {
            Ok(over) => DropinAcc {
                sections: patch_doc(acc.sections, over),
                skipped: acc.skipped,
            },
            Err(_) => DropinAcc { sections: acc.sections, skipped: acc.skipped.push(path) },
        };
        apply_dir_files(acc2, fs.drop_first(), c, full, dirpath)
    }
}

/// Applies one candidate directory name across every root, in root order.
pub open spec fn apply_cand_roots(
    acc: DropinAcc,
    roots: Seq<RootModel>,
    cand: Seq<char>,
    c: ContextModel,
    full: Seq<char>,
) -> DropinAcc
    decreases roots.len(),
{
    if roots.len() == 0 {
        acc
    } else {
        let acc2 = match find_dir_named(roots[0].dirs, cand) {
            Option::None => acc,
            Option::Some(dir) => apply_dir_files(
                acc,
                sort_files(conf_files(dir.files)),
                c,
                full,
                roots[0].path + "/"@ + cand,
            ),
        };
        apply_cand_roots(acc2, roots.drop_first(), cand, c, full)
    }
}

/// Applies every candidate directory name, most specific first.
pub open spec fn apply_cands(
    acc: DropinAcc,
    roots: Seq<RootModel>,
    cands: Seq<Seq<char>>,
    c: ContextModel,
    full: Seq<char>,
) -> DropinAcc
    decreases cands.len(),
{
    if cands.len() == 0 {
        acc
    } else {
        apply_cands(
            apply_cand_roots(acc, roots, cands[0], c, full),
            roots,
            cands.drop_first(),
            c,
            full,
        )
    }
}

// ---------------------------------------------------------------------------
// Loading one named unit
// ---------------------------------------------------------------------------

/// The model of a load failure.
pub enum LoadErr {
    /// The base fragment failed to parse.
    Parse(ParseErr),
    /// The full name holds more than one `@`.
    InvalidFilename,
    /// The name denotes a template, which can never be loaded directly.
    LoadTemplate,
    /// No search root holds the backing fragment.
    MissingUnit,
}

/// The on-disk file that backs a unit: an instance is backed by its
/// template's file `<template>@.<suffix>`, a regular unit by itself.
/// (Meaningful only for names that are neither templates nor invalid.)
pub open spec fn backing_name_of(full: Seq<char>, suffix: Seq<char>) -> Seq<char> {
    match classify_name(full) {
        UnitClass::Instance { template_name, .. } => template_name + "@."@ + suffix,
        _ => full,
    }
}

/// What loading a named unit yields from a snapshot: the name is
/// normalized with the suffix, classified (templates are rejected before
/// any lookup), the first root holding the backing fragment supplies the
/// base document, and every drop-in candidate directory then applies as a
/// patch, most specific candidate first, roots in order, files in
/// lexicographic order.
pub open spec fn load_named_model(
    roots: Seq<RootModel>,
    name: Seq<char>,
    suffix: Seq<char>,
    c: ContextModel,
    allow_empty: bool,
) -> Result<MergedModel, LoadErr> {
    let full = full_name_of(name, suffix);
    if classify_name(full) is Invalid {
        Err(LoadErr::InvalidFilename)
    } else if classify_name(full) is Template {
        Err(LoadErr::LoadTemplate)
    } else {
        let backing = backing_name_of(full, suffix);
        match find_in_roots(roots, backing) {
            Option::None => Err(LoadErr::MissingUnit),
            Option::Some(hit) => {
                let fragpath = hit.0 + "/"@ + backing;
                match parse_unit_model(hit.1.content, allow_empty, c, full, fragpath) {
                    Err(e) => Err(LoadErr::Parse(e)),
                    Ok(base) => {
                        let merged = apply_cands(
                            DropinAcc { sections: base, skipped: Seq::<Seq<char>>::empty() },
                            roots,
                            dropin_candidates(full, suffix),
                            c,
                            full,
                        );
                        Ok(MergedModel { sections: merged.sections, skipped: merged.skipped })
                    },
                }
            },
        }
    }
}

/// How a load error relates to the model.
pub open spec fn load_err_matches(
    m: Result<MergedModel, LoadErr>,
    e: Error,
    full: Seq<char>,
    name: Seq<char>,
) -> bool {
    match e {
        Error::InvalidFilenameError { filename } => m == Err::<MergedModel, LoadErr>(
            LoadErr::InvalidFilename,
        ) && filename@ == full,
        Error::LoadTemplateError { name: nm } => m == Err::<MergedModel, LoadErr>(
            LoadErr::LoadTemplate,
        ) && nm@ == full,
        Error::MissingUnitError { name: nm } => m == Err::<MergedModel, LoadErr>(
            LoadErr::MissingUnit,
        ) && nm@ == name,
        Error::SyntaxError { line, expect } => m == Err::<MergedModel, LoadErr>(
            LoadErr::Parse(ParseErr::Syntax { line: line as int, expect }),
        ),
        Error::NoSectionError => m == Err::<MergedModel, LoadErr>(
            LoadErr::Parse(ParseErr::NoSection),
        ),
        _ => false,
    }
}

fn locate_backing<'a>(roots: &'a Vec<SearchRoot>, backing: &str) -> (r: Option<
    (usize, &'a UnitFile),
>)
    ensures
        match r {
            Some(hit) => hit.0 < roots@.len() && find_in_roots(roots.deep_view(), backing@)
                == Some((roots.deep_view()[hit.0 as int].path, hit.1@)),
            Option::None => find_in_roots(roots.deep_view(), backing@) is None,
        },
{
    let ghost rdv = roots.deep_view();
    let n: usize = roots.len();
    let mut i: usize = 0;
    proof {
        assert(rdv.skip(0) =~~= rdv);
    }
    while i < n
        invariant
            i <= n,
            n == roots@.len(),
            rdv == roots.deep_view(),
            rdv.len() == n,
            find_in_roots(rdv, backing@) == find_in_roots(rdv.skip(i as int), backing@),
        decreases n - i,
    {
        proof {
            assert(rdv.skip(i as int)[0] == rdv[i as int]);
            assert(rdv[i as int] == roots@[i as int]@);
            assert(rdv.skip(i as int).drop_first() =~= rdv.skip(i + 1));
        }
        let root = &roots[i];
        match find_file_pos(&root.files, backing) {
            Some(fi) => {
                let f = &root.files[fi];
                proof {
                    assert(root.files.deep_view()[fi as int] == f@);
                }
                return Some((i, f));
            },
            Option::None => {},
        }
        i = i + 1;
    }
    proof {
        assert(rdv.skip(n as int) =~= Seq::<RootModel>::empty());
    }
    Option::None
}

/// Loads the unit called `name` from the snapshot, merging every
/// applicable drop-in.
///
/// The outcome is exactly what [`load_named_model`] ascribes to the
/// snapshot: templates are rejected with [`Error::LoadTemplateError`], a
/// malformed name with [`Error::InvalidFilenameError`], an absent backing
/// fragment with [`Error::MissingUnitError`], a base fragment that fails
/// to parse with its own error; otherwise the first matching root's
/// fragment, patched by every candidate drop-in in documented order, is
/// returned together with the paths of drop-in files that were skipped.
pub fn load_named_from(
    roots: &Vec<SearchRoot>,
    name: &str,
    suffix: &str,
    context: &SpecifierContext,
    allow_empty: bool,
) -> (r: Result<MergedUnit, Error>)
    ensures
        match r {
            Ok(u) => load_named_model(roots.deep_view(), name@, suffix@, context@, allow_empty)
                == Ok::<MergedModel, LoadErr>(u@),
            Err(e) => load_err_matches(
                load_named_model(roots.deep_view(), name@, suffix@, context@, allow_empty),
                e,
                full_name_of(name@, suffix@),
                name@,
            ),
        },
{
    let ghost rdv = roots.deep_view();
    let ghost fullm = full_name_of(name@, suffix@);
    // 1. normalize the name
    let dotsuf = String::from_str(".").concat(suffix);
    let vname = chars_of(name);
    proof {
        reveal_strlit(".");
        assert("."@ =~= seq!['.']);
        assert(dotsuf@ =~= seq!['.'] + suffix@);
    }
    let full: String = if crate::text::vec_ends_with_str(&vname, dotsuf.as_str()) {
        String::from_str(name)
    } else {
        String::from_str(name).concat(dotsuf.as_str())
    };
    proof {
        assert(full@ == fullm);
    }
    // 2. classify; reject templates outright
    let backing: String = match unit_type(full.as_str()) {
        Err(e) => {
            return Err(e);
        },
        Ok(UnitType::Template { .. }) => {
            return Err(Error::LoadTemplateError { name: full });
        },
        Ok(UnitType::Instance { instance_name: _, template_name }) => template_name.concat(
            "@.",
        ).concat(suffix),
        Ok(UnitType::Regular { .. }) => full.clone(),
    };
    proof {
        assert(backing@ == backing_name_of(fullm, suffix@));
    }
    // 3. the first root holding the backing fragment wins
    let hit = locate_backing(roots, backing.as_str());
    let (ri, file): (usize, &UnitFile) = match hit {
        Option::None => {
            return Err(Error::MissingUnitError { name: String::from_str(name) });
        },
        Some(h) => h,
    };
    let root = &roots[ri];
    proof {
        assert(rdv[ri as int] == root@);
    }
    let fragpath = root.path.clone().concat("/").concat(backing.as_str());
    let base_raw = match parse(file.content.as_str(), allow_empty) {
        Err(e) => {
            return Err(e);
        },
        Ok(doc) => doc,
    };
    let base = resolve_doc(base_raw, context, full.as_str(), fragpath.as_str());
    // 4 and 5: apply the drop-ins in their documented order
    let merged = apply_dropins(base, roots, full.as_str(), suffix, context);
    Ok(MergedUnit { sections: merged.0, skipped: merged.1 })
}

/// Applies every applicable drop-in directory to `base`, candidates most
/// specific first, roots in caller order, files in lexicographic order;
/// unparsable drop-in files are skipped and their paths returned.
fn apply_dropins(
    base: Vec<Section>,
    roots: &Vec<SearchRoot>,
    full: &str,
    suffix: &str,
    context: &SpecifierContext,
) -> (r: (Vec<Section>, Vec<String>))
    ensures
        apply_cands(
            DropinAcc { sections: base.deep_view(), skipped: Seq::<Seq<char>>::empty() },
            roots.deep_view(),
            dropin_candidates(full@, suffix@),
            context@,
            full@,
        ) == (DropinAcc { sections: r.0.deep_view(), skipped: r.1.deep_view() }),
{
    let ghost rdv = roots.deep_view();
    let ghost fullm = full@;
    let cands = candidate_dirs(full, suffix);
    let ghost candsm = dropin_candidates(fullm, suffix@);
    proof {
        assert(cands.deep_view() == candsm);
        assert(cands.deep_view().len() == cands@.len());
    }
    let mut sections: Vec<Section> = base;
    let mut skipped: Vec<String> = Vec::new();
    let ghost acc0 = DropinAcc {
        sections: sections.deep_view(),
        skipped: Seq::<Seq<char>>::empty(),
    };
    let ghost goal = apply_cands(acc0, rdv, candsm, context@, fullm);
    let nc: usize = cands.len();
    let nr: usize = roots.len();
    let mut ci: usize = 0;
    proof {
        assert(skipped.deep_view() =~~= Seq::<Seq<char>>::empty());
        assert(candsm.skip(0) =~~= candsm);
    }
    while ci < nc
        invariant
            ci <= nc,
            nc == cands@.len(),
            nr == roots@.len(),
            rdv == roots.deep_view(),
            candsm == cands.deep_view(),
            candsm.len() == nc,
            fullm == full@,
            goal == apply_cands(
                DropinAcc { sections: sections.deep_view(), skipped: skipped.deep_view() },
                rdv,
                candsm.skip(ci as int),
                context@,
                fullm,
            ),
        decreases nc - ci,
    {
        let cand = &cands[ci];
        let ghost candm = candsm[ci as int];
        proof {
            assert(cands.deep_view()[ci as int] == cand@);
            assert(candsm.skip(ci as int)[0] == candm);
            assert(candsm.skip(ci as int).drop_first() =~= candsm.skip(ci + 1));
        }
        let ghost acc_c = DropinAcc {
            sections: sections.deep_view(),
            skipped: skipped.deep_view(),
        };
        let ghost root_goal = apply_cand_roots(acc_c, rdv, candm, context@, fullm);
        let mut ri2: usize = 0;
        proof {
            assert(rdv.skip(0) =~~= rdv);
        }
        while ri2 < nr
            invariant
                ri2 <= nr,
                nr == roots@.len(),
                rdv == roots.deep_view(),
                rdv.len() == nr,
                fullm == full@,
                candm == cand@,
                root_goal == apply_cand_roots(
                    DropinAcc { sections: sections.deep_view(), skipped: skipped.deep_view() },
                    rdv.skip(ri2 as int),
                    candm,
                    context@,
                    fullm,
                ),
            decreases nr - ri2,
        {
            proof {
                assert(rdv.skip(ri2 as int)[0] == rdv[ri2 as int]);
                assert(rdv[ri2 as int] == roots@[ri2 as int]@);
                assert(rdv.skip(ri2 as int).drop_first() =~= rdv.skip(ri2 + 1));
            }
            let root2 = &roots[ri2];
            match find_dir_pos(&root2.dirs, cand.as_str()) {
                Option::None => {},
                Some(di) => {
                    let dir = &root2.dirs[di];
                    proof {
                        assert(root2.dirs.deep_view()[di as int] == dir@);
                    }
                    let dirpath = root2.path.clone().concat("/").concat(cand.as_str());
                    let idxs = sorted_conf_indices(&dir.files);
                    let ghost sf = sort_files(conf_files(dir.files.deep_view()));
                    proof {
                        assert(sel_files(dir.files.deep_view(), idxs@) == sf);
                        assert(sf.len() == idxs@.len());
                    }
                    let nf: usize = idxs.len();
                    let mut ki: usize = 0;
                    let ghost acc_d = DropinAcc {
                        sections: sections.deep_view(),
                        skipped: skipped.deep_view(),
                    };
                    let ghost dir_goal = apply_dir_files(
                        acc_d,
                        sf,
                        context@,
                        fullm,
                        rdv[ri2 as int].path + "/"@ + candm,
                    );
                    proof {
                        assert(sf.skip(0) =~~= sf);
                        assert(dirpath@ == rdv[ri2 as int].path + "/"@ + candm);
                    }
                    while ki < nf
                        invariant
                            ki <= nf,
                            nf == idxs@.len(),
                            sf == sel_files(dir.files.deep_view(), idxs@),
                            sf.len() == nf,
                            forall|k: int| 0 <= k < idxs@.len() ==> idxs@[k] < dir.files@.len(),
                            fullm == full@,
                            dirpath@ == rdv[ri2 as int].path + "/"@ + candm,
                            dir@ == roots@[ri2 as int].dirs@[di as int]@,
                            dir_goal == apply_dir_files(
                                DropinAcc {
                                    sections: sections.deep_view(),
                                    skipped: skipped.deep_view(),
                                },
                                sf.skip(ki as int),
                                context@,
                                fullm,
                                dirpath@,
                            ),
                        decreases nf - ki,
                    {
                        proof {
                            assert(sf.skip(ki as int)[0] == sf[ki as int]);
                            assert(sf[ki as int] == dir.files.deep_view()[idxs@[ki as int] as int]);
                            assert(dir.files.deep_view()[idxs@[ki as int] as int] == dir.files@[
                                idxs@[ki as int] as int]@);
                            assert(sf.skip(ki as int).drop_first() =~= sf.skip(ki + 1));
                        }
                        let fi2: usize = idxs[ki];
                        let f2 = &dir.files[fi2];
                        let fpath = dirpath.clone().concat("/").concat(f2.name.as_str());
                        proof {
                            assert(fpath@ == dirpath@ + "/"@ + sf[ki as int].name);
                        }
                        match parse(f2.content.as_str(), true) {
                            Err(_) => {
                                let ghost sk0 = skipped.deep_view();
                                skipped.push(fpath);
                                proof {
                                    assert(skipped.deep_view() =~~= sk0.push(
                                        dirpath@ + "/"@ + sf[ki as int].name,
                                    ));
                                }
                            },
                            Ok(doc) => {
                                let over = resolve_doc(doc, context, full, fpath.as_str());
                                sections = patch_sections(sections, over);
                            },
                        }
                        ki = ki + 1;
                    }
                    proof {
                        assert(sf.skip(nf as int) =~~= Seq::<FileModel>::empty());
                    }
                },
            }
            ri2 = ri2 + 1;
        }
        proof {
            assert(rdv.skip(nr as int) =~~= Seq::<RootModel>::empty());
        }
        ci = ci + 1;
    }
    proof {
        assert(candsm.skip(nc as int) =~~= Seq::<Seq<char>>::empty());
        assert(goal == DropinAcc {
            sections: sections.deep_view(),
            skipped: skipped.deep_view(),
        });
    }
    (sections, skipped)
}

// ---------------------------------------------------------------------------
// Bulk loading: every unit of the scanned roots
// ---------------------------------------------------------------------------

/// A regular unit file found during the walk.
pub struct RegFile {
    pub name: String,
    pub content: String,
    pub rootpath: String,
}

/// The model of a [`RegFile`].
pub struct RegRec {
    pub name: Seq<char>,
    pub content: Seq<char>,
    pub rootpath: Seq<char>,
}

impl View for RegFile {
    type V = RegRec;

    open spec fn view(&self) -> RegRec {
        RegRec { name: self.name@, content: self.content@, rootpath: self.rootpath@ }
    }
}

impl DeepView for RegFile {
    type V = RegRec;

    open spec fn deep_view(&self) -> RegRec {
        self.view()
    }
}

/// A template file found during the walk: its raw content is cached
/// unparsed, keyed by template name.
pub struct TplFile {
    pub tname: String,
    pub content: String,
    pub tpath: String,
}

/// The model of a [`TplFile`].
pub struct TplRec {
    pub tname: Seq<char>,
    pub content: Seq<char>,
    pub tpath: Seq<char>,
}

impl View for TplFile {
    type V = TplRec;

    open spec fn view(&self) -> TplRec {
        TplRec { tname: self.tname@, content: self.content@, tpath: self.tpath@ }
    }
}

impl DeepView for TplFile {
    type V = TplRec;

    open spec fn deep_view(&self) -> TplRec {
        self.view()
    }
}

/// An instance occurrence found during the walk.
pub struct InstFile {
    pub fullname: String,
    pub iname: String,
    pub tname: String,
}

/// The model of an [`InstFile`].
pub struct InstRec {
    pub fullname: Seq<char>,
    pub iname: Seq<char>,
    pub tname: Seq<char>,
}

impl View for InstFile {
    type V = InstRec;

    open spec fn view(&self) -> InstRec {
        InstRec { fullname: self.fullname@, iname: self.iname@, tname: self.tname@ }
    }
}

impl DeepView for InstFile {
    type V = InstRec;

    open spec fn deep_view(&self) -> InstRec {
        self.view()
    }
}

/// What one walk over the roots collects.
pub struct ScanAcc {
    pub regs: Seq<RegRec>,
    pub tpls: Seq<TplRec>,
    pub insts: Seq<InstRec>,
    pub skipped: Seq<Seq<char>>,
}

/// Classifies the plain files of one root, in order.
pub open spec fn scan_files(acc: ScanAcc, fs: Seq<FileModel>, rootpath: Seq<char>) -> ScanAcc
    decreases fs.len(),
{
    if fs.len() == 0 {
        acc
    } else {
        let f = fs[0];
        let acc2 = match classify_name(f.name) {
            UnitClass::Invalid => ScanAcc {
                regs: acc.regs,
                tpls: acc.tpls,
                insts: acc.insts,
                skipped: acc.skipped.push(rootpath + "/"@ + f.name),
            },
            UnitClass::Regular { .. } => ScanAcc {
                regs: acc.regs.push(
                    RegRec { name: f.name, content: f.content, rootpath: rootpath },
                ),
                tpls: acc.tpls,
                insts: acc.insts,
                skipped: acc.skipped,
            },
            UnitClass::Template { template_name } => ScanAcc {
                regs: acc.regs,
                tpls: acc.tpls.push(
                    TplRec {
                        tname: template_name,
                        content: f.content,
                        tpath: rootpath + "/"@ + f.name,
                    },
                ),
                insts: acc.insts,
                skipped: acc.skipped,
            },
            UnitClass::Instance { instance_name, template_name } => ScanAcc {
                regs: acc.regs,
                tpls: acc.tpls,
                insts: acc.insts.push(
                    InstRec { fullname: f.name, iname: instance_name, tname: template_name },
                ),
                skipped: acc.skipped,
            },
        };
        scan_files(acc2, fs.drop_first(), rootpath)
    }
}

/// Walks every root in order.
pub open spec fn scan_roots(acc: ScanAcc, roots: Seq<RootModel>) -> ScanAcc
    decreases roots.len(),
{
    if roots.len() == 0 {
        acc
    } else {
        scan_roots(scan_files(acc, roots[0].files, roots[0].path), roots.drop_first())
    }
}

/// The first cached template with the given name: the earliest root wins.
pub open spec fn find_tpl(tpls: Seq<TplRec>, tname: Seq<char>) -> Option<TplRec>
    decreases tpls.len(),
{
    if tpls.len() == 0 {
        Option::None
    } else if tpls[0].tname == tname {
        Some(tpls[0])
    } else {
        find_tpl(tpls.drop_first(), tname)
    }
}

/// Whether a unit with this identifier was already produced.
pub open spec fn has_id(us: Seq<(Seq<char>, Seq<SectionModel>)>, id: Seq<char>) -> bool
    decreases us.len(),
{
    if us.len() == 0 {
        false
    } else if us[0].0 == id {
        true
    } else {
        has_id(us.drop_first(), id)
    }
}

/// The state while units are being produced: the units keyed by filename,
/// and the files that were skipped.
pub struct BuildAcc {
    pub units: Seq<(Seq<char>, Seq<SectionModel>)>,
    pub skipped: Seq<Seq<char>>,
}

/// Parses every regular unit file, in walk order; the first occurrence of
/// a unit key wins and later ones are dropped.
pub open spec fn build_regs(
    acc: BuildAcc,
    regs: Seq<RegRec>,
    c: ContextModel,
    allow_empty: bool,
) -> BuildAcc
    decreases regs.len(),
{
    if regs.len() == 0 {
        acc
    } else {
        let rg = regs[0];
        let path = rg.rootpath + "/"@ + rg.name;
        let acc2 = if has_id(acc.units, rg.name) {
            acc
        } else {
            match parse_unit_model(rg.content, allow_empty, c, rg.name, path) {
                Err(_) => BuildAcc { units: acc.units, skipped: acc.skipped.push(path) },
                Ok(ss) => BuildAcc { units: acc.units.push((rg.name, ss)), skipped: acc.skipped },
            }
        };
        build_regs(acc2, regs.drop_first(), c, allow_empty)
    }
}

/// Materializes every recorded instance: the literal `%i` tokens of the
/// cached template text are substituted with the instance name before any
/// parsing, independent of specifier resolution.  An instance without a
/// cached template, or whose materialized text fails to parse, is skipped.
pub open spec fn build_insts(
    acc: BuildAcc,
    insts: Seq<InstRec>,
    tpls: Seq<TplRec>,
    c: ContextModel,
    allow_empty: bool,
) -> BuildAcc
    decreases insts.len(),
{
    if insts.len() == 0 {
        acc
    } else {
        let it = insts[0];
        let acc2 = if has_id(acc.units, it.fullname) {
            acc
        } else {
            match find_tpl(tpls, it.tname) {
                Option::None => BuildAcc {
                    units: acc.units,
                    skipped: acc.skipped.push(it.fullname),
                },
                Option::Some(tpl) => match parse_unit_model(
                    materialize_spec(tpl.content, it.iname),
                    allow_empty,
                    c,
                    it.fullname,
                    tpl.tpath,
                ) {
                    Err(_) => BuildAcc {
                        units: acc.units,
                        skipped: acc.skipped.push(it.fullname),
                    },
                    Ok(ss) => BuildAcc {
                        units: acc.units.push((it.fullname, ss)),
                        skipped: acc.skipped,
                    },
                },
            }
        };
        build_insts(acc2, insts.drop_first(), tpls, c, allow_empty)
    }
}

/// One produced unit with its drop-ins applied.
pub open spec fn finish_one(
    u: (Seq<char>, Seq<SectionModel>),
    roots: Seq<RootModel>,
    suffix: Seq<char>,
    c: ContextModel,
) -> (Seq<char>, MergedModel) {
    let m = apply_cands(
        DropinAcc { sections: u.1, skipped: Seq::<Seq<char>>::empty() },
        roots,
        dropin_candidates(u.0, suffix),
        c,
        u.0,
    );
    (u.0, MergedModel { sections: m.sections, skipped: m.skipped })
}

/// Every produced unit with its drop-ins applied.
pub open spec fn finish_units(
    us: Seq<(Seq<char>, Seq<SectionModel>)>,
    roots: Seq<RootModel>,
    suffix: Seq<char>,
    c: ContextModel,
) -> Seq<(Seq<char>, MergedModel)> {
    us.map_values(|u: (Seq<char>, Seq<SectionModel>)| finish_one(u, roots, suffix, c))
}

/// What bulk loading yields: every unit of the scanned roots, regular
/// units first in walk order, then materialized instances, each key
/// produced once (the earliest occurrence wins), each unit merged with its
/// drop-ins; beside them the files that were skipped (malformed names,
/// unparsable fragments, instances without a template).
pub open spec fn load_dir_model(
    roots: Seq<RootModel>,
    suffix: Seq<char>,
    c: ContextModel,
    allow_empty: bool,
) -> (Seq<(Seq<char>, MergedModel)>, Seq<Seq<char>>) {
    let sc = scan_roots(
        ScanAcc {
            regs: Seq::<RegRec>::empty(),
            tpls: Seq::<TplRec>::empty(),
            insts: Seq::<InstRec>::empty(),
            skipped: Seq::<Seq<char>>::empty(),
        },
        roots,
    );
    let b1 = build_regs(
        BuildAcc { units: Seq::<(Seq<char>, Seq<SectionModel>)>::empty(), skipped: sc.skipped },
        sc.regs,
        c,
        allow_empty,
    );
    let b2 = build_insts(b1, sc.insts, sc.tpls, c, allow_empty);
    (finish_units(b2.units, roots, suffix, c), b2.skipped)
}

/// One unit of a bulk load: its filename and its merged document.
#[derive(Debug)]
pub struct NamedUnit {
    pub id: String,
    pub unit: MergedUnit,
}

impl View for NamedUnit {
    type V = (Seq<char>, MergedModel);

    open spec fn view(&self) -> (Seq<char>, MergedModel) {
        (self.id@, self.unit@)
    }
}

impl DeepView for NamedUnit {
    type V = (Seq<char>, MergedModel);

    open spec fn deep_view(&self) -> (Seq<char>, MergedModel) {
        self.view()
    }
}

/// A produced-but-not-yet-finished unit.
pub struct PartialUnit {
    pub id: String,
    pub sections: Vec<Section>,
}

impl View for PartialUnit {
    type V = (Seq<char>, Seq<SectionModel>);

    open spec fn view(&self) -> (Seq<char>, Seq<SectionModel>) {
        (self.id@, self.sections.deep_view())
    }
}

impl DeepView for PartialUnit {
    type V = (Seq<char>, Seq<SectionModel>);

    open spec fn deep_view(&self) -> (Seq<char>, Seq<SectionModel>) {
        self.view()
    }
}

fn has_id_exec(units: &Vec<PartialUnit>, id: &str) -> (r: bool)
    ensures
        r == has_id(units.deep_view(), id@),
{
    let ghost udv = units.deep_view();
    let n: usize = units.len();
    let mut i: usize = 0;
    proof {
        assert(udv.skip(0) =~~= udv);
    }
    while i < n
        invariant
            i <= n,
            n == units@.len(),
            udv == units.deep_view(),
            udv.len() == n,
            has_id(udv, id@) == has_id(udv.skip(i as int), id@),
        decreases n - i,
    {
        proof {
            assert(udv.skip(i as int)[0] == udv[i as int]);
            assert(udv[i as int] == units@[i as int]@);
            assert(udv.skip(i as int).drop_first() =~= udv.skip(i + 1));
        }
        if crate::text::str_eq(units[i].id.as_str(), id) {
            return true;
        }
        i = i + 1;
    }
    proof {
        assert(udv.skip(n as int) =~= Seq::<(Seq<char>, Seq<SectionModel>)>::empty());
    }
    false
}

fn find_tpl_pos(tpls: &Vec<TplFile>, tname: &str) -> (r: Option<usize>)
    ensures
        match r {
            Some(i) => i < tpls@.len() && find_tpl(tpls.deep_view(), tname@) == Some(
                tpls.deep_view()[i as int],
            ),
            Option::None => find_tpl(tpls.deep_view(), tname@) is None,
        },
{
    let ghost tdv = tpls.deep_view();
    let n: usize = tpls.len();
    let mut i: usize = 0;
    proof {
        assert(tdv.skip(0) =~~= tdv);
    }
    while i < n
        invariant
            i <= n,
            n == tpls@.len(),
            tdv == tpls.deep_view(),
            tdv.len() == n,
            find_tpl(tdv, tname@) == find_tpl(tdv.skip(i as int), tname@),
        decreases n - i,
    {
        proof {
            assert(tdv.skip(i as int)[0] == tdv[i as int]);
            assert(tdv[i as int] == tpls@[i as int]@);
            assert(tdv.skip(i as int).drop_first() =~= tdv.skip(i + 1));
        }
        if crate::text::str_eq(tpls[i].tname.as_str(), tname) {
            return Some(i);
        }
        i = i + 1;
    }
    proof {
        assert(tdv.skip(n as int) =~= Seq::<TplRec>::empty());
    }
    Option::None
}

/// Loads every unit of the scanned roots: regular files are parsed
/// directly, template contents are cached unparsed, recorded instances
/// are materialized by textual `%i` substitution before parsing, every
/// result receives its drop-ins, and unit keys are deduplicated, first
/// occurrence winning.
///
/// Returns the units exactly as [`load_dir_model`] ascribes them to the
/// snapshot, together with the skipped files.
pub fn load_dir_from(
    roots: &Vec<SearchRoot>,
    suffix: &str,
    context: &SpecifierContext,
    allow_empty: bool,
) -> (r: (Vec<NamedUnit>, Vec<String>))
    ensures
        r.0.deep_view() == load_dir_model(roots.deep_view(), suffix@, context@, allow_empty).0,
        r.1.deep_view() == load_dir_model(roots.deep_view(), suffix@, context@, allow_empty).1,
{
    let ghost rdv = roots.deep_view();
    // phase 1: the walk
    let mut regs: Vec<RegFile> = Vec::new();
    let mut tpls: Vec<TplFile> = Vec::new();
    let mut insts: Vec<InstFile> = Vec::new();
    let mut skipped: Vec<String> = Vec::new();
    let ghost scan0 = ScanAcc {
        regs: Seq::<RegRec>::empty(),
        tpls: Seq::<TplRec>::empty(),
        insts: Seq::<InstRec>::empty(),
        skipped: Seq::<Seq<char>>::empty(),
    };
    let ghost scan_goal = scan_roots(scan0, rdv);
    let nr: usize = roots.len();
    let mut i: usize = 0;
    proof {
        assert(regs.deep_view() =~~= scan0.regs);
        assert(tpls.deep_view() =~~= scan0.tpls);
        assert(insts.deep_view() =~~= scan0.insts);
        assert(skipped.deep_view() =~~= scan0.skipped);
        assert(rdv.skip(0) =~~= rdv);
    }
    while i < nr
        invariant
            i <= nr,
            nr == roots@.len(),
            rdv == roots.deep_view(),
            rdv.len() == nr,
            scan_goal == scan_roots(
                ScanAcc {
                    regs: regs.deep_view(),
                    tpls: tpls.deep_view(),
                    insts: insts.deep_view(),
                    skipped: skipped.deep_view(),
                },
                rdv.skip(i as int),
            ),
        decreases nr - i,
    {
        proof {
            assert(rdv.skip(i as int)[0] == rdv[i as int]);
            assert(rdv[i as int] == roots@[i as int]@);
            assert(rdv.skip(i as int).drop_first() =~= rdv.skip(i + 1));
        }
        let root = &roots[i];
        let ghost fdv = root.files.deep_view();
        let nf: usize = root.files.len();
        let mut j: usize = 0;
        let ghost acc_r = ScanAcc {
            regs: regs.deep_view(),
            tpls: tpls.deep_view(),
            insts: insts.deep_view(),
            skipped: skipped.deep_view(),
        };
        let ghost file_goal = scan_files(acc_r, fdv, rdv[i as int].path);
        proof {
            assert(fdv.skip(0) =~~= fdv);
        }
        while j < nf
            invariant
                j <= nf,
                nf == root.files@.len(),
                fdv == root.files.deep_view(),
                fdv.len() == nf,
                root@ == roots@[i as int]@,
                rdv == roots.deep_view(),
                i < nr,
                nr == roots@.len(),
                rdv[i as int] == root@,
                file_goal == scan_files(
                    ScanAcc {
                        regs: regs.deep_view(),
                        tpls: tpls.deep_view(),
                        insts: insts.deep_view(),
                        skipped: skipped.deep_view(),
                    },
                    fdv.skip(j as int),
                    rdv[i as int].path,
                ),
            decreases nf - j,
        {
            proof {
                assert(fdv.skip(j as int)[0] == fdv[j as int]);
                assert(fdv[j as int] == root.files@[j as int]@);
                assert(fdv.skip(j as int).drop_first() =~= fdv.skip(j + 1));
            }
            let f = &root.files[j];
            match unit_type(f.name.as_str()) {
                Err(_) => {
                    let path = root.path.clone().concat("/").concat(f.name.as_str());
                    let ghost sk0 = skipped.deep_view();
                    skipped.push(path);
                    proof {
                        assert(skipped.deep_view() =~~= sk0.push(
                            rdv[i as int].path + "/"@ + fdv[j as int].name,
                        ));
                    }
                },
                Ok(UnitType::Regular { .. }) => {
                    let ghost rg0 = regs.deep_view();
                    let rec = RegFile {
                        name: f.name.clone(),
                        content: f.content.clone(),
                        rootpath: root.path.clone(),
                    };
                    let ghost recm = rec@;
                    regs.push(rec);
                    proof {
                        assert(regs.deep_view() =~~= rg0.push(recm));
                        assert(recm =~~= RegRec {
                            name: fdv[j as int].name,
                            content: fdv[j as int].content,
                            rootpath: rdv[i as int].path,
                        });
                    }
                },
                Ok(UnitType::Template { template_name }) => {
                    let ghost tp0 = tpls.deep_view();
                    let rec = TplFile {
                        tname: template_name,
                        content: f.content.clone(),
                        tpath: root.path.clone().concat("/").concat(f.name.as_str()),
                    };
                    let ghost recm = rec@;
                    tpls.push(rec);
                    proof {
                        assert(tpls.deep_view() =~~= tp0.push(recm));
                    }
                },
                Ok(UnitType::Instance { instance_name, template_name }) => {
                    let ghost in0 = insts.deep_view();
                    let rec = InstFile {
                        fullname: f.name.clone(),
                        iname: instance_name,
                        tname: template_name,
                    };
                    let ghost recm = rec@;
                    insts.push(rec);
                    proof {
                        assert(insts.deep_view() =~~= in0.push(recm));
                    }
                },
            }
            j = j + 1;
        }
        proof {
            assert(fdv.skip(nf as int) =~~= Seq::<FileModel>::empty());
        }
        i = i + 1;
    }
    proof {
        assert(rdv.skip(nr as int) =~~= Seq::<RootModel>::empty());
    }
    // phase 2: regular units, walk order, first key wins
    let ghost b_goal = build_regs(
        BuildAcc {
            units: Seq::<(Seq<char>, Seq<SectionModel>)>::empty(),
            skipped: skipped.deep_view(),
        },
        regs.deep_view(),
        context@,
        allow_empty,
    );
    let mut units: Vec<PartialUnit> = Vec::new();
    let ghost regs_all = regs.deep_view();
    let mut rrest = regs;
    proof {
        assert(units.deep_view() =~~= Seq::<(Seq<char>, Seq<SectionModel>)>::empty());
        assert(rrest.deep_view() =~~= regs_all);
    }
    while rrest.len() > 0
        invariant
            b_goal == build_regs(
                BuildAcc { units: units.deep_view(), skipped: skipped.deep_view() },
                rrest.deep_view(),
                context@,
                allow_empty,
            ),
        decreases rrest.len(),
    {
        let ghost rr0 = rrest.deep_view();
        let rg = rrest.remove(0);
        proof {
            assert(rrest.deep_view() =~~= rr0.drop_first());
            assert(rg@ == rr0[0]);
        }
        let ghost rgm = rg@;
        if has_id_exec(&units, rg.name.as_str()) {
            // a unit with this key already exists: the earlier root wins
        } else {
            let path = rg.rootpath.clone().concat("/").concat(rg.name.as_str());
            proof {
                assert(path@ == rgm.rootpath + "/"@ + rgm.name);
            }
            match parse(rg.content.as_str(), allow_empty) {
                Err(_) => {
                    let ghost sk0 = skipped.deep_view();
                    skipped.push(path);
                    proof {
                        assert(skipped.deep_view() =~~= sk0.push(rgm.rootpath + "/"@ + rgm.name));
                    }
                },
                Ok(doc) => {
                    let resolved = resolve_doc(doc, context, rg.name.as_str(), path.as_str());
                    let ghost u0 = units.deep_view();
                    let pu = PartialUnit { id: rg.name, sections: resolved };
                    let ghost pum = pu@;
                    units.push(pu);
                    proof {
                        assert(units.deep_view() =~~= u0.push(pum));
                    }
                },
            }
        }
    }
    proof {
        assert(rrest.deep_view().len() == 0);
    }
    // phase 3: instances, materialized from their templates
    let ghost b2_goal = build_insts(
        BuildAcc { units: units.deep_view(), skipped: skipped.deep_view() },
        insts.deep_view(),
        tpls.deep_view(),
        context@,
        allow_empty,
    );
    let ghost tdv = tpls.deep_view();
    let ghost insts_all = insts.deep_view();
    let mut irest = insts;
    proof {
        assert(irest.deep_view() =~~= insts_all);
    }
    while irest.len() > 0
        invariant
            tdv == tpls.deep_view(),
            b2_goal == build_insts(
                BuildAcc { units: units.deep_view(), skipped: skipped.deep_view() },
                irest.deep_view(),
                tdv,
                context@,
                allow_empty,
            ),
        decreases irest.len(),
    {
        let ghost ir0 = irest.deep_view();
        let it = irest.remove(0);
        proof {
            assert(irest.deep_view() =~~= ir0.drop_first());
            assert(it@ == ir0[0]);
        }
        let ghost itm = it@;
        if has_id_exec(&units, it.fullname.as_str()) {
            // first occurrence of this instance wins
        } else {
            match find_tpl_pos(&tpls, it.tname.as_str()) {
                Option::None => {
                    let ghost sk0 = skipped.deep_view();
                    skipped.push(it.fullname);
                    proof {
                        assert(skipped.deep_view() =~~= sk0.push(itm.fullname));
                    }
                },
                Some(ti) => {
                    let tpl = &tpls[ti];
                    proof {
                        assert(tpls.deep_view()[ti as int] == tpl@);
                    }
                    let text = materialize_instance(tpl.content.as_str(), it.iname.as_str());
                    match parse(text.as_str(), allow_empty) {
                        Err(_) => {
                            let ghost sk0 = skipped.deep_view();
                            skipped.push(it.fullname);
                            proof {
                                assert(skipped.deep_view() =~~= sk0.push(itm.fullname));
                            }
                        },
                        Ok(doc) => {
                            let resolved = resolve_doc(
                                doc,
                                context,
                                it.fullname.as_str(),
                                tpl.tpath.as_str(),
                            );
                            let ghost u0 = units.deep_view();
                            let pu = PartialUnit { id: it.fullname, sections: resolved };
                            let ghost pum = pu@;
                            units.push(pu);
                            proof {
                                assert(units.deep_view() =~~= u0.push(pum));
                            }
                        },
                    }
                },
            }
        }
    }
    proof {
        assert(irest.deep_view().len() == 0);
    }
    // phase 4: drop-ins for every unit
    let ghost units_all = units.deep_view();
    let ghost fin = finish_units(units_all, rdv, suffix@, context@);
    let mut out: Vec<NamedUnit> = Vec::new();
    let mut urest = units;
    let ghost mut k: int = 0;
    proof {
        assert(urest.deep_view() =~~= units_all.skip(0));
        assert(out.deep_view() =~~= fin.take(0));
    }
    while urest.len() > 0
        invariant
            0 <= k <= units_all.len(),
            urest.deep_view() == units_all.skip(k),
            fin == finish_units(units_all, rdv, suffix@, context@),
            rdv == roots.deep_view(),
            out.deep_view() == fin.take(k),
        decreases urest.len(),
    {
        proof {
            assert(units_all.skip(k).len() == units_all.len() - k);
        }
        let ghost ur0 = urest.deep_view();
        let pu = urest.remove(0);
        proof {
            assert(urest.deep_view() =~~= ur0.drop_first());
            assert(urest.deep_view() =~~= units_all.skip(k + 1));
            assert(units_all.skip(k)[0] == units_all[k]);
            assert(pu.deep_view() == ur0[0]);
            assert(pu@ == units_all[k]);
        }
        let ghost pum = pu@;
        let merged = apply_dropins(pu.sections, roots, pu.id.as_str(), suffix, context);
        let ghost o0 = out.deep_view();
        let nu = NamedUnit {
            id: pu.id,
            unit: MergedUnit { sections: merged.0, skipped: merged.1 },
        };
        let ghost num = nu@;
        out.push(nu);
        proof {
            assert(out.deep_view() =~~= o0.push(num));
            assert(fin[k] == finish_one(units_all[k], rdv, suffix@, context@));
            assert(num =~~= fin[k]);
            assert(out.deep_view() =~~= fin.take(k + 1));
            k = k + 1;
        }
    }
    proof {
        assert(units_all.skip(k).len() == 0);
        assert(k == units_all.len());
        assert(out.deep_view() =~~= fin);
    }
    (out, skipped)
}

// ---------------------------------------------------------------------------
// The search-order law
// ---------------------------------------------------------------------------

/// Search-path order is the sole tie-break for the base fragment: a root
/// that lacks the backing file defers to the remaining roots, and the
/// first root that holds it wins no matter what the later roots hold.
pub proof fn lemma_search_path_order(roots: Seq<RootModel>, backing: Seq<char>)
    requires
        roots.len() > 0,
    ensures
        find_named(roots[0].files, backing) is None ==> find_in_roots(roots, backing)
            == find_in_roots(roots.drop_first(), backing),
        forall|f: FileModel| #[trigger]
            find_named(roots[0].files, backing) == Some(f) ==> find_in_roots(roots, backing)
                == Some((roots[0].path, f)),
{
}

// ---------------------------------------------------------------------------
// Subdirectory name enumeration
// ---------------------------------------------------------------------------

/// Enumerates, for one unit filename, the `<root>/<filename>.<subdir>`
/// directories that may hold associated fragments.  Reading those
/// directories is the embedding program's work; only the name computation
/// lives here.
#[derive(Debug)]
pub struct SubdirParser {
    pub paths: Vec<String>,
    pub filename: String,
}

/// The directory names a [`SubdirParser`] enumerates.
pub open spec fn subdir_names(
    paths: Seq<Seq<char>>,
    filename: Seq<char>,
    subdir: Seq<char>,
) -> Seq<Seq<char>> {
    paths.map_values(|p: Seq<char>| p + "/"@ + filename + "."@ + subdir)
}

impl SubdirParser {
    /// The full path of `<path>/<filename>.<subdir>` for every search
    /// path, in order.
    pub fn dir_names(&self, subdir: &str) -> (r: Vec<String>)
        ensures
            r.deep_view() == subdir_names(self.paths.deep_view(), self.filename@, subdir@),
    {
        let ghost pdv = self.paths.deep_view();
        let ghost goal = subdir_names(pdv, self.filename@, subdir@);
        let n: usize = self.paths.len();
        let mut out: Vec<String> = Vec::new();
        let mut i: usize = 0;
        proof {
            assert(out.deep_view() =~~= goal.take(0));
        }
        while i < n
            invariant
                i <= n,
                n == self.paths@.len(),
                pdv == self.paths.deep_view(),
                pdv.len() == n,
                goal == subdir_names(pdv, self.filename@, subdir@),
                out.deep_view() == goal.take(i as int),
            decreases n - i,
        {
            proof {
                assert(pdv[i as int] == self.paths@[i as int]@);
            }
            let p = self.paths[i].clone().concat("/").concat(self.filename.as_str()).concat(
                ".",
            ).concat(subdir);
            let ghost pm = p@;
            let ghost out0 = out.deep_view();
            out.push(p);
            proof {
                assert(out.deep_view() =~~= out0.push(pm));
                assert(goal[i as int] == pdv[i as int] + "/"@ + self.filename@ + "."@ + subdir@);
                assert(out.deep_view() =~~= goal.take(i + 1));
            }
            i = i + 1;
        }
        proof {
            assert(goal.take(n as int) =~~= goal);
        }
        out
    }
}

} // verus!
