//! The scan: from a listing of entries under the content root to asset records.
use vstd::prelude::*;
use vstd::seq_lib::lemma_multiset_commutative;

use crate::asset_path::{
    game_root, lemma_virtual_path_shape, relative_to, split_extension, split_file_name, strip_base, texts, virtual_path,
    virtual_path_of,
};
use crate::category::{category_of, classify, AssetCategory};
use crate::text::same_text;

verus! {

/// One entry met while walking the content root.
pub struct WalkEntry {
    /// The components of the entry's path, from the file-system root down.
    pub components: Vec<String>,
    /// The entry's full path as text.
    pub file_path: String,
    /// Whether the entry is a regular file.
    pub is_file: bool,
}

/// The mathematical value of a `WalkEntry`.
pub struct EntryModel {
    pub components: Seq<Seq<char>>,
    pub file_path: Seq<char>,
    pub is_file: bool,
}

impl View for WalkEntry {
    type V = EntryModel;

    open spec fn view(&self) -> EntryModel {
        EntryModel {
            components: texts(self.components@),
            file_path: self.file_path@,
            is_file: self.is_file,
        }
    }
}

/// One discovered asset.
pub struct UnrealAsset {
    /// The file name without its extension.
    pub name: String,
    /// The engine reference path, `/Game/...` without extension.
    pub path: String,
    /// The file's full path.
    pub file_path: String,
    /// The inferred category.
    pub asset_type: AssetCategory,
}

/// The mathematical value of an `UnrealAsset`.
pub struct AssetModel {
    pub name: Seq<char>,
    pub path: Seq<char>,
    pub file_path: Seq<char>,
    pub asset_type: AssetCategory,
}

impl View for UnrealAsset {
    type V = AssetModel;

    open spec fn view(&self) -> AssetModel {
        AssetModel {
            name: self.name@,
            path: self.path@,
            file_path: self.file_path@,
            asset_type: self.asset_type,
        }
    }
}

/// Why a scan fails.
#[derive(Clone, Copy, Debug, PartialEq, Eq, Structural)]
pub enum ScanError {
    /// The project has no `Content` directory.
    ContentRootMissing,
}

impl ScanError {
    pub open spec fn message_spec(self) -> Seq<char> {
        match self {
            ScanError::ContentRootMissing => seq![
                'C', 'o', 'n', 't', 'e', 'n', 't', ' ', 'f', 'o', 'l', 'd', 'e', 'r', ' ',
                'n', 'o', 't', ' ', 'f', 'o', 'u', 'n', 'd',
            ],
        }
    }

    /// The human-readable description handed to callers.
    pub fn message(&self) -> (r: String)
        ensures
            r@ == self.message_spec(),
    {
        proof {
            reveal_strlit("Content folder not found");
        }
        String::from_str("Content folder not found")
    }
}

pub open spec fn asset_extension() -> Seq<char> {
    seq!['u', 'a', 's', 's', 'e', 't']
}

pub open spec fn map_extension() -> Seq<char> {
    seq!['u', 'm', 'a', 'p']
}

/// The entry is a regular file whose extension is one of the two accepted.
pub open spec fn is_candidate(e: EntryModel) -> bool {
    &&& e.is_file
    &&& e.components.len() > 0
    &&& split_extension(e.components.last()) matches Some((_, ext))
    &&& (ext == asset_extension() || ext == map_extension())
}

/// The record of one entry, if it yields one: a regular file with an accepted
/// extension that lies under the content root `root`.
pub open spec fn asset_of(root: Seq<Seq<char>>, e: EntryModel) -> Option<AssetModel> {
    if !is_candidate(e) {
        None
    } else {
        let (stem, ext) = split_extension(e.components.last())->Some_0;
        match strip_base(root, e.components) {
            None => None,
            Some(rel) => Some(
                AssetModel {
                    name: stem,
                    path: virtual_path_of(rel),
                    file_path: e.file_path,
                    asset_type: category_of(ext == map_extension(), stem),
                },
            ),
        }
    }
}

/// The records of a listing, in the listing's order.
pub open spec fn scan_model(root: Seq<Seq<char>>, entries: Seq<EntryModel>) -> Seq<AssetModel> {
    entries.filter_map(|e: EntryModel| asset_of(root, e))
}

pub open spec fn entry_models(entries: Seq<WalkEntry>) -> Seq<EntryModel> {
    entries.map_values(|e: WalkEntry| e@)
}

pub open spec fn asset_models(assets: Seq<UnrealAsset>) -> Seq<AssetModel> {
    assets.map_values(|a: UnrealAsset| a@)
}

/// The record that one entry yields, if any.
pub fn asset_from_entry(root: &Vec<String>, entry: &WalkEntry) -> (r: Option<UnrealAsset>)
    ensures
        r is None ==> asset_of(texts(root@), entry@) is None,
        r matches Some(a) ==> asset_of(texts(root@), entry@) == Some(a@),
{
    if !entry.is_file {
        return None;
    }
    let n = entry.components.len();
    if n == 0 {
        return None;
    }
    assert(texts(entry.components@).last() == entry.components@[n - 1]@);
    let (stem, ext) = match split_file_name(entry.components[n - 1].as_str()) {
        None => {
            return None;
        },
        Some(parts) => parts,
    };
    proof {
        reveal_strlit("uasset");
        reveal_strlit("umap");
        assert("uasset"@ =~= asset_extension());
        assert("umap"@ =~= map_extension());
    }
    let is_map = same_text(ext.as_str(), "umap");
    if !is_map && !same_text(ext.as_str(), "uasset") {
        return None;
    }
    let asset_type = classify(is_map, stem.as_str());
    match relative_to(root, &entry.components) {
        None => None,
        Some(rel) => {
            let path = virtual_path(&rel);
            Some(UnrealAsset { name: stem, path, file_path: entry.file_path.clone(), asset_type })
        },
    }
}

/// Scans a listing of the entries found under the content root.
///
/// `content_root_exists` tells whether the content root was found;
/// `content_root` holds its path components and `entries` what the walk of it
/// yielded, in the walk's order. Without a content root the scan fails;
/// otherwise it returns, in the listing's order, the record of each entry that
/// is a regular file with extension `uasset` or `umap` lying under the root.
pub fn scan_unreal_project(
    content_root_exists: bool,
    content_root: &Vec<String>,
    entries: &Vec<WalkEntry>,
) -> (r: Result<Vec<UnrealAsset>, ScanError>)
    ensures
        !content_root_exists ==> r == Err::<Vec<UnrealAsset>, ScanError>(
            ScanError::ContentRootMissing,
        ),
        content_root_exists ==> r is Ok,
        r matches Ok(assets) ==> asset_models(assets@) == scan_model(
            texts(content_root@),
            entry_models(entries@),
        ),
{
    if !content_root_exists {
        return Err(ScanError::ContentRootMissing);
    }
    let ghost root = texts(content_root@);
    let ghost models = entry_models(entries@);
    let ghost f = |e: EntryModel| asset_of(root, e);
    let mut assets: Vec<UnrealAsset> = Vec::new();
    let n = entries.len();
    let mut i: usize = 0;
    while i < n
        invariant
            n == entries@.len(),
            i <= n,
            root == texts(content_root@),
            models == entry_models(entries@),
            f == (|e: EntryModel| asset_of(root, e)),
            asset_models(assets@) =~= models.take(i as int).filter_map(f),
        decreases n - i,
    {
        let found = asset_from_entry(content_root, &entries[i]);
        proof {
            models.lemma_filter_map_take_succ(f, i as int);
        }
        match found {
            None => {},
            Some(a) => {
                assets.push(a);
            },
        }
        assert(asset_models(assets@) =~= models.take(i + 1).filter_map(f));
        i = i + 1;
    }
    assert(models.take(n as int) =~= models);
    Ok(assets)
}

/// The records of two listings one after the other are the records of each.
proof fn lemma_scan_model_append(root: Seq<Seq<char>>, a: Seq<EntryModel>, b: Seq<EntryModel>)
    ensures
        scan_model(root, a + b) =~= scan_model(root, a) + scan_model(root, b),
    decreases b.len(),
{
    if b.len() == 0 {
        assert(a + b =~= a);
    } else {
        lemma_scan_model_append(root, a, b.drop_last());
        assert((a + b).drop_last() =~= a + b.drop_last());
        assert((a + b).last() == b.last());
    }
}

/// Every record comes from an entry of the listing that is a regular file
/// with extension `uasset` or `umap`; its reference path starts with `/Game/`
/// and holds no backslash.
pub proof fn lemma_records_come_from_candidates(
    root: Seq<Seq<char>>,
    entries: Seq<EntryModel>,
    a: AssetModel,
)
    requires
        scan_model(root, entries).contains(a),
    ensures
        exists|e: EntryModel|
            #[trigger] entries.contains(e) && is_candidate(e) && asset_of(root, e) == Some(a),
        a.path.take(game_root().len() as int) == game_root(),
        !a.path.contains('\\'),
{
    entries.lemma_filter_map_contains(|e: EntryModel| asset_of(root, e), a);
    let e = choose|e: EntryModel| #[trigger] entries.contains(e) && asset_of(root, e) == Some(a);
    lemma_virtual_path_shape(strip_base(root, e.components)->Some_0);
}

/// A map file under the content root always yields a record, and its
/// category is `Level`, whatever the file's name.
pub proof fn lemma_map_files_are_levels(root: Seq<Seq<char>>, e: EntryModel)
    requires
        e.is_file,
        e.components.len() > 0,
        split_extension(e.components.last()) matches Some((_, ext)) && ext == map_extension(),
        strip_base(root, e.components) is Some,
    ensures
        asset_of(root, e) matches Some(a) && a.asset_type == AssetCategory::Level,
{
}

/// An entry that is not a regular file with extension `uasset` or `umap`
/// yields no record: taking it out of the listing leaves the result unchanged.
pub proof fn lemma_other_entries_excluded(root: Seq<Seq<char>>, entries: Seq<EntryModel>, i: int)
    requires
        0 <= i < entries.len(),
        !is_candidate(entries[i]),
    ensures
        asset_of(root, entries[i]) is None,
        scan_model(root, entries) == scan_model(root, entries.remove(i)),
{
    let pre = entries.take(i);
    let post = entries.skip(i + 1);
    assert(entries =~= pre + seq![entries[i]] + post);
    assert(entries.remove(i) =~= pre + post);
    lemma_scan_model_append(root, pre + seq![entries[i]], post);
    lemma_scan_model_append(root, pre, seq![entries[i]]);
    lemma_scan_model_append(root, pre, post);
    Seq::lemma_filter_map_singleton(entries[i], |e: EntryModel| asset_of(root, e));
}

/// A listing in which no entry is a regular file with an accepted extension
/// yields no records.
pub proof fn lemma_no_candidates_no_records(root: Seq<Seq<char>>, entries: Seq<EntryModel>)
    requires
        forall|i: int| 0 <= i < entries.len() ==> !is_candidate(#[trigger] entries[i]),
    ensures
        scan_model(root, entries) == Seq::<AssetModel>::empty(),
    decreases entries.len(),
{
    if entries.len() == 0 {
        assert(scan_model(root, entries) =~= Seq::<AssetModel>::empty());
    } else {
        let rest = entries.drop_last();
        assert forall|i: int| 0 <= i < rest.len() implies !is_candidate(#[trigger] rest[i]) by {
            assert(rest[i] == entries[i]);
        }
        lemma_no_candidates_no_records(root, rest);
        assert(!is_candidate(entries[entries.len() - 1]));
    }
}

/// The result does not depend on the order in which the walk yields the
/// entries: two listings with the same entries, in any order, give the same
/// records, counted with multiplicity.
pub proof fn lemma_scan_order_insensitive(
    root: Seq<Seq<char>>,
    a: Seq<EntryModel>,
    b: Seq<EntryModel>,
)
    requires
        a.to_multiset() == b.to_multiset(),
    ensures
        scan_model(root, a).to_multiset() == scan_model(root, b).to_multiset(),
    decreases a.len(),
{
    broadcast use vstd::seq_lib::group_to_multiset_ensures;

    if a.len() == 0 {
        assert(b.to_multiset().len() == 0);
        assert(b =~= Seq::<EntryModel>::empty());
        assert(scan_model(root, a) =~= Seq::<AssetModel>::empty());
        assert(scan_model(root, b) =~= Seq::<AssetModel>::empty());
    } else {
        let x = a.last();
        let a0 = a.drop_last();
        assert(a =~= a0.push(x));
        assert(a.to_multiset() == a0.to_multiset().insert(x));
        assert(b.to_multiset().count(x) > 0);
        assert(b.contains(x));
        let i = choose|i: int| 0 <= i < b.len() && b[i] == x;
        let b0 = b.remove(i);
        assert(b0.to_multiset() == b.to_multiset().remove(x));
        assert(a0.to_multiset() =~= b0.to_multiset());
        lemma_scan_order_insensitive(root, a0, b0);
        let one = seq![x];
        let pre = b.take(i);
        let post = b.skip(i + 1);
        assert(b =~= pre + one + post);
        assert(b0 =~= pre + post);
        assert(a =~= a0 + one);
        lemma_scan_model_append(root, a0, one);
        lemma_scan_model_append(root, pre + one, post);
        lemma_scan_model_append(root, pre, one);
        lemma_scan_model_append(root, pre, post);
        let m1 = scan_model(root, one);
        lemma_multiset_commutative(scan_model(root, a0), m1);
        lemma_multiset_commutative(scan_model(root, pre) + m1, scan_model(root, post));
        lemma_multiset_commutative(scan_model(root, pre), m1);
        lemma_multiset_commutative(scan_model(root, pre), scan_model(root, post));
        assert(scan_model(root, a).to_multiset() =~= scan_model(root, b).to_multiset());
    }
}

} // verus!
