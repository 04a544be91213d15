//! File names, relative paths and the engine's virtual reference paths.
//!
//! A path is modelled as the sequence of its components' texts.
use vstd::prelude::*;

use crate::text::{find_last, forward_slashes, last_index_of, lemma_last_index_of, replace_backslashes};

verus! {

/// The texts of a list of strings.
pub open spec fn texts(v: Seq<String>) -> Seq<Seq<char>> {
    v.map_values(|s: String| s@)
}

/// Splits a file name at its last dot into stem and extension. A name without
/// a dot, or whose only dot comes first (a hidden file), has no extension.
pub open spec fn split_extension(name: Seq<char>) -> Option<(Seq<char>, Seq<char>)> {
    let k = last_index_of(name, '.');
    if k <= 0 {
        None
    } else {
        Some((name.take(k), name.skip(k + 1)))
    }
}

/// `full` with the components of `base` removed from its front, when `base`
/// is a prefix of it.
pub open spec fn strip_base(base: Seq<Seq<char>>, full: Seq<Seq<char>>) -> Option<Seq<Seq<char>>> {
    if base.len() <= full.len() && full.take(base.len() as int) =~= base {
        Some(full.skip(base.len() as int))
    } else {
        None
    }
}

/// The components joined with forward slashes.
pub open spec fn join_path(comps: Seq<Seq<char>>) -> Seq<char>
    decreases comps.len(),
{
    if comps.len() == 0 {
        Seq::empty()
    } else if comps.len() == 1 {
        comps[0]
    } else {
        join_path(comps.drop_last()) + seq!['/'] + comps.last()
    }
}

/// The root of every virtual reference path.
pub open spec fn game_root() -> Seq<char> {
    seq!['/', 'G', 'a', 'm', 'e', '/']
}

/// Drops everything from the last dot on; a text without a dot is kept.
pub open spec fn strip_last_extension(s: Seq<char>) -> Seq<char> {
    let k = last_index_of(s, '.');
    if k < 0 {
        s
    } else {
        s.take(k)
    }
}

/// The engine reference of a file at relative path `rel` under the content
/// root: `/Game/`, then the path with forward slashes, without its extension.
pub open spec fn virtual_path_of(rel: Seq<Seq<char>>) -> Seq<char> {
    strip_last_extension(game_root() + forward_slashes(join_path(rel)))
}

/// Splits a file name into stem and extension, as `split_extension` states.
pub fn split_file_name(name: &str) -> (r: Option<(String, String)>)
    ensures
        r is None ==> split_extension(name@) is None,
        r matches Some((stem, ext)) ==> split_extension(name@) == Some((stem@, ext@)),
{
    proof {
        lemma_last_index_of(name@, '.');
    }
    match find_last(name, '.') {
        None => None,
        Some(k) => {
            if k == 0 {
                None
            } else {
                let n = name.unicode_len();
                let stem = String::from_str(name.substring_char(0, k));
                let ext = String::from_str(name.substring_char(k + 1, n));
                assert(name@.subrange(0, k as int) =~= name@.take(k as int));
                assert(name@.subrange(k + 1, n as int) =~= name@.skip(k + 1));
                Some((stem, ext))
            }
        },
    }
}

/// The components of `full` that follow `base`, when `full` lies under it.
pub fn relative_to(base: &Vec<String>, full: &Vec<String>) -> (r: Option<Vec<String>>)
    ensures
        r is None ==> strip_base(texts(base@), texts(full@)) is None,
        r matches Some(rel) ==> strip_base(texts(base@), texts(full@)) == Some(texts(rel@)),
{
    let nb = base.len();
    let nf = full.len();
    if nb > nf {
        return None;
    }
    let mut i: usize = 0;
    while i < nb
        invariant
            nb == base@.len(),
            nf == full@.len(),
            nb <= nf,
            i <= nb,
            forall|j: int| 0 <= j < i ==> full@[j]@ == base@[j]@,
        decreases nb - i,
    {
        if base[i] != full[i] {
            assert(texts(full@).take(nb as int)[i as int] != texts(base@)[i as int]);
            return None;
        }
        i = i + 1;
    }
    assert(texts(full@).take(nb as int) =~= texts(base@));
    let mut rel: Vec<String> = Vec::new();
    let mut j: usize = nb;
    while j < nf
        invariant
            nb <= j <= nf,
            nf == full@.len(),
            rel@.len() == j - nb,
            forall|t: int| 0 <= t < rel@.len() ==> rel@[t]@ == full@[nb + t]@,
        decreases nf - j,
    {
        rel.push(full[j].clone());
        j = j + 1;
    }
    assert(texts(rel@) =~= texts(full@).skip(nb as int));
    Some(rel)
}

/// The components joined with forward slashes.
pub fn join_components(comps: &Vec<String>) -> (r: String)
    ensures
        r@ == join_path(texts(comps@)),
{
    let n = comps.len();
    let mut out = String::new();
    let mut i: usize = 0;
    proof {
        reveal_strlit("/");
    }
    while i < n
        invariant
            n == comps@.len(),
            i <= n,
            out@ == join_path(texts(comps@).take(i as int)),
            "/"@ == seq!['/'],
        decreases n - i,
    {
        assert(texts(comps@).take(i + 1).drop_last() =~= texts(comps@).take(i as int));
        if i > 0 {
            out.append("/");
        } else {
            assert(join_path(texts(comps@).take(0)) =~= Seq::<char>::empty());
        }
        out.append(comps[i].as_str());
        assert(texts(comps@).take(i + 1).last() == comps@[i as int]@);
        proof {
            if i == 0 {
                assert(join_path(texts(comps@).take(1)) == texts(comps@).take(1)[0]);
            }
        }
        i = i + 1;
    }
    assert(texts(comps@).take(n as int) =~= texts(comps@));
    out
}

/// The engine reference path of a file at relative path `rel`.
pub fn virtual_path(rel: &Vec<String>) -> (r: String)
    ensures
        r@ == virtual_path_of(texts(rel@)),
{
    let joined = join_components(rel);
    let normal = replace_backslashes(joined.as_str());
    proof {
        reveal_strlit("/Game/");
        assert("/Game/"@ =~= game_root());
    }
    let full = String::from_str("/Game/").concat(normal.as_str());
    proof {
        lemma_last_index_of(full@, '.');
    }
    match find_last(full.as_str(), '.') {
        None => full,
        Some(k) => {
            let stripped = String::from_str(full.as_str().substring_char(0, k));
            assert(full@.subrange(0, k as int) =~= full@.take(k as int));
            stripped
        },
    }
}

/// Every virtual path starts with `/Game/` and holds no backslash.
pub proof fn lemma_virtual_path_shape(rel: Seq<Seq<char>>)
    ensures
        virtual_path_of(rel).len() >= game_root().len(),
        virtual_path_of(rel).take(game_root().len() as int) =~= game_root(),
        !virtual_path_of(rel).contains('\\'),
{
    let full = game_root() + forward_slashes(join_path(rel));
    lemma_last_index_of(full, '.');
    let k = last_index_of(full, '.');
    if k >= 0 {
        assert(full[k] == '.');
        assert(k >= game_root().len()) by {
            if k < game_root().len() {
                assert(full[k] == game_root()[k]);
            }
        }
    }
    let v = virtual_path_of(rel);
    assert forall|j: int| 0 <= j < v.len() implies v[j] != '\\' by {
        assert(v[j] == full[j]);
        if j >= game_root().len() {
            assert(full[j] == forward_slashes(join_path(rel))[j - game_root().len()]);
        }
    }
}

} // verus!
