//! Which modules a workspace has.

use vstd::prelude::*;
use crate::utils::module_resolver::{
    deduped, entries_named, entry_named, has_module, index_is_right, path_index, ModuleV,
    SourceFileV,
};

verus! {

/// The first module of its path.
pub open spec fn is_first_of_path(mods: Seq<ModuleV>, k: int) -> bool {
    &&& 0 <= k < mods.len()
    &&& forall|j: int| 0 <= j < k ==> (#[trigger] mods[j]).path != mods[k].path
}

/// How many of the first `end` modules are the first of their path.
pub open spec fn firsts_before(mods: Seq<ModuleV>, end: int) -> nat
    decreases end,
{
    if end <= 0 {
        0
    } else {
        firsts_before(mods, end - 1) + if is_first_of_path(mods, end - 1) {
            1nat
        } else {
            0nat
        }
    }
}

/// The paths of `acc` are those of the first `i` modules.
spec fn covers(acc: Seq<ModuleV>, mods: Seq<ModuleV>, i: int) -> bool {
    forall|p: Seq<char>| #[trigger] has_module(acc, p) <==> has_module(mods.take(i), p)
}

proof fn lemma_has_pushed(acc: Seq<ModuleV>, m: ModuleV, p: Seq<char>)
    ensures
        has_module(acc.push(m), p) <==> has_module(acc, p) || m.path == p,
{
    let more = acc.push(m);
    if has_module(acc, p) {
        let a = choose|a: int| 0 <= a < acc.len() && (#[trigger] acc[a]).path == p;
        assert(more[a].path == p);
    }
    if m.path == p {
        assert(more[acc.len() as int].path == p);
    }
    if has_module(more, p) && m.path != p {
        let a = choose|a: int| 0 <= a < more.len() && (#[trigger] more[a]).path == p;
        assert(acc[a].path == p);
    }
}

proof fn lemma_covers(acc: Seq<ModuleV>, mods: Seq<ModuleV>, i: int)
    requires
        0 <= i < mods.len() <= usize::MAX,
        acc.len() <= i,
        covers(acc, mods, i),
    ensures
        path_index(acc, mods[i].path, 0) is Some <==> !is_first_of_path(mods, i),
        is_first_of_path(mods, i) ==> covers(acc.push(mods[i]), mods, i + 1),
        !is_first_of_path(mods, i) ==> covers(acc, mods, i + 1),
{
    let m = mods[i];
    let front = mods.take(i);
    index_is_right(acc, m.path, 0);
    assert(path_index(acc, m.path, 0) is Some <==> has_module(acc, m.path)) by {
        if path_index(acc, m.path, 0) is Some {
            assert(acc[path_index(acc, m.path, 0)->0 as int].path == m.path);
        }
    }
    assert(has_module(front, m.path) <==> !is_first_of_path(mods, i)) by {
        if has_module(front, m.path) {
            let j = choose|j: int| 0 <= j < front.len() && (#[trigger] front[j]).path == m.path;
            assert(mods[j].path == m.path);
        }
        if !is_first_of_path(mods, i) {
            let j = choose|j: int| 0 <= j < i && (#[trigger] mods[j]).path == m.path;
            assert(front[j].path == m.path);
        }
    }
    assert(mods.take(i + 1) =~= front.push(m));
    assert forall|p: Seq<char>| #[trigger]
        has_module(acc.push(m), p) <==> has_module(mods.take(i + 1), p) by {
        lemma_has_pushed(acc, m, p);
        lemma_has_pushed(front, m, p);
    }
    if !is_first_of_path(mods, i) {
        assert forall|p: Seq<char>| #[trigger] has_module(acc, p) <==> has_module(
            mods.take(i + 1),
            p,
        ) by {
            lemma_has_pushed(front, m, p);
        }
    }
}

proof fn lemma_deduped(mods: Seq<ModuleV>, i: int, acc: Seq<ModuleV>, k: int)
    requires
        0 <= i <= mods.len() <= usize::MAX,
        acc.len() == firsts_before(mods, i),
        acc.len() <= i,
        covers(acc, mods, i),
    ensures
        ({
            let out = deduped(mods, i, acc);
            let at = firsts_before(mods, k);
            &&& out.len() == firsts_before(mods, mods.len() as int)
            &&& acc.len() <= out.len()
            &&& forall|a: int| 0 <= a < acc.len() ==> out[a] == #[trigger] acc[a]
            &&& i <= k && is_first_of_path(mods, k) ==> at < out.len() && out[at as int] == mods[k]
        }),
    decreases mods.len() - i,
{
    if i < mods.len() {
        lemma_covers(acc, mods, i);
        assert(firsts_before(mods, i + 1) == firsts_before(mods, i) + if is_first_of_path(mods, i) {
            1nat
        } else {
            0nat
        });
        if is_first_of_path(mods, i) {
            let more = acc.push(mods[i]);
            lemma_deduped(mods, i + 1, more, k);
            let out = deduped(mods, i, acc);
            assert(out[acc.len() as int] == more[acc.len() as int]);
            assert forall|a: int| 0 <= a < acc.len() implies out[a] == #[trigger] acc[a] by {
                assert(more[a] == acc[a]);
            }
        } else {
            lemma_deduped(mods, i + 1, acc, k);
        }
    }
}

/// Of the modules with one path the first is kept, and the modules that are kept stay in order.
pub proof fn first_module_of_a_path_is_kept(mods: Seq<ModuleV>, k: int)
    requires
        mods.len() <= usize::MAX,
    ensures
        deduped(mods, 0, seq![]).len() == firsts_before(mods, mods.len() as int),
        is_first_of_path(mods, k) ==> firsts_before(mods, k) < deduped(mods, 0, seq![]).len()
            && deduped(mods, 0, seq![])[firsts_before(mods, k) as int] == mods[k],
{
    assert(mods.take(0) =~= seq![]);
    lemma_deduped(mods, 0, seq![], k);
}

/// The first file with a stem.
pub open spec fn is_first_with_stem(files: Seq<SourceFileV>, stem: Seq<char>, k: int) -> bool {
    &&& 0 <= k < files.len()
    &&& files[k].stem == Some(stem)
    &&& forall|j: int| 0 <= j < k ==> (#[trigger] files[j]).stem != Some(stem)
}

proof fn lemma_entry(
    mods: Seq<ModuleV>,
    files: Seq<SourceFileV>,
    stem: Seq<char>,
    i: int,
    k: int,
)
    requires
        0 <= i <= files.len(),
    ensures
        i <= k && is_first_with_stem(files, stem, k) ==> entry_named(mods, files, stem, i)
            == path_index(mods, files[k].path, 0),
        (forall|j: int| i <= j < files.len() ==> (#[trigger] files[j]).stem != Some(stem))
            ==> entry_named(mods, files, stem, i) is None,
    decreases files.len() - i,
{
    if i < files.len() && files[i].stem != Some(stem) {
        lemma_entry(mods, files, stem, i + 1, k);
    }
}

/// The entry point of a name is the module of the first file of that name, if it has been loaded;
/// without such a file there is none.
pub proof fn entry_points_go_by_name(
    mods: Seq<ModuleV>,
    files: Seq<SourceFileV>,
    stem: Seq<char>,
    k: int,
)
    requires
        mods.len() <= usize::MAX,
    ensures
        is_first_with_stem(files, stem, k) ==> match entry_named(mods, files, stem, 0) {
            Some(m) => m < mods.len() && mods[m as int].path == files[k].path,
            None => forall|m: int|
                0 <= m < mods.len() ==> (#[trigger] mods[m]).path != files[k].path,
        },
        (forall|j: int| 0 <= j < files.len() ==> (#[trigger] files[j]).stem != Some(stem))
            ==> entry_named(mods, files, stem, 0) is None,
{
    lemma_entry(mods, files, stem, 0, k);
    if is_first_with_stem(files, stem, k) {
        index_is_right(mods, files[k].path, 0);
    }
}

/// The module is that of a file with the stem.
pub open spec fn is_module_of(
    mods: Seq<ModuleV>,
    files: Seq<SourceFileV>,
    stem: Seq<char>,
    k: int,
    m: usize,
) -> bool {
    &&& 0 <= k < files.len()
    &&& files[k].stem == Some(stem)
    &&& path_index(mods, files[k].path, 0) == Some(m)
}

proof fn lemma_entries(
    mods: Seq<ModuleV>,
    files: Seq<SourceFileV>,
    stem: Seq<char>,
    i: int,
    acc: Seq<usize>,
    m: usize,
)
    requires
        0 <= i <= files.len(),
    ensures
        entries_named(mods, files, stem, i, acc).contains(m) <==> acc.contains(m) || exists|k: int|
            i <= k && is_module_of(mods, files, stem, k, m),
    decreases files.len() - i,
{
    if i < files.len() {
        let found = path_index(mods, files[i].path, 0);
        let out = entries_named(mods, files, stem, i, acc);
        if files[i].stem == Some(stem) && found is Some {
            let more = acc.push(found->0);
            lemma_entries(mods, files, stem, i + 1, more, m);
            if acc.contains(m) {
                let a = choose|a: int| 0 <= a < acc.len() && acc[a] == m;
                assert(more[a] == m);
            }
            if found->0 == m {
                assert(more[acc.len() as int] == m);
                assert(is_module_of(mods, files, stem, i, m));
            }
            if more.contains(m) && !acc.contains(m) {
                let a = choose|a: int| 0 <= a < more.len() && more[a] == m;
                if a < acc.len() {
                    assert(acc[a] == m);
                }
                assert(found->0 == m);
            }
        } else {
            lemma_entries(mods, files, stem, i + 1, acc, m);
        }
        if exists|k: int| i <= k && is_module_of(mods, files, stem, k, m) {
            let k = choose|k: int| i <= k && is_module_of(mods, files, stem, k, m);
            if k > i {
                assert(i + 1 <= k && is_module_of(mods, files, stem, k, m));
            }
        }
    }
}

/// The shared modules of a name are the modules of all the files of that name, and no others.
pub proof fn shared_modules_go_by_name(
    mods: Seq<ModuleV>,
    files: Seq<SourceFileV>,
    stem: Seq<char>,
    m: usize,
)
    ensures
        entries_named(mods, files, stem, 0, seq![]).contains(m) <==> exists|k: int|
            is_module_of(mods, files, stem, k, m),
{
    lemma_entries(mods, files, stem, 0, seq![], m);
    if exists|k: int| is_module_of(mods, files, stem, k, m) {
        let k = choose|k: int| is_module_of(mods, files, stem, k, m);
        assert(0 <= k && is_module_of(mods, files, stem, k, m));
    }
}

} // verus!
