//! Naming-convention classification of asset files.
use vstd::prelude::*;

use crate::text::{has_prefix, starts_with};

verus! {

/// The inferred type of an asset.
#[derive(Clone, Copy, Debug, PartialEq, Eq, Hash, Structural)]
pub enum AssetCategory {
    Level,
    Blueprint,
    Material,
    StaticMesh,
    Texture,
    Asset,
}

pub open spec fn blueprint_prefix() -> Seq<char> {
    seq!['B', 'P', '_']
}

pub open spec fn material_prefix() -> Seq<char> {
    seq!['M', '_']
}

pub open spec fn static_mesh_prefix() -> Seq<char> {
    seq!['S', 'M', '_']
}

pub open spec fn texture_prefix() -> Seq<char> {
    seq!['T', '_']
}

/// The ordered, first-match classification rule: a map file is always a
/// level; otherwise the first prefix of the stem that matches decides, and
/// `Asset` is the fallback.
pub open spec fn category_of(is_map: bool, stem: Seq<char>) -> AssetCategory {
    if is_map {
        AssetCategory::Level
    } else if starts_with(stem, blueprint_prefix()) {
        AssetCategory::Blueprint
    } else if starts_with(stem, material_prefix()) {
        AssetCategory::Material
    } else if starts_with(stem, static_mesh_prefix()) {
        AssetCategory::StaticMesh
    } else if starts_with(stem, texture_prefix()) {
        AssetCategory::Texture
    } else {
        AssetCategory::Asset
    }
}

impl AssetCategory {
    /// The fixed label of each category.
    pub open spec fn label_spec(self) -> Seq<char> {
        match self {
            AssetCategory::Level => seq!['L', 'e', 'v', 'e', 'l'],
            AssetCategory::Blueprint => seq!['B', 'l', 'u', 'e', 'p', 'r', 'i', 'n', 't'],
            AssetCategory::Material => seq!['M', 'a', 't', 'e', 'r', 'i', 'a', 'l'],
            AssetCategory::StaticMesh => seq![
                'S', 't', 'a', 't', 'i', 'c', 'M', 'e', 's', 'h',
            ],
            AssetCategory::Texture => seq!['T', 'e', 'x', 't', 'u', 'r', 'e'],
            AssetCategory::Asset => seq!['A', 's', 's', 'e', 't'],
        }
    }

    /// The category's label as it is shown to users and serialised.
    pub fn label(&self) -> (r: String)
        ensures
            r@ == self.label_spec(),
    {
        match self {
            AssetCategory::Level => {
                proof { reveal_strlit("Level"); }
                String::from_str("Level")
            },
            AssetCategory::Blueprint => {
                proof { reveal_strlit("Blueprint"); }
                String::from_str("Blueprint")
            },
            AssetCategory::Material => {
                proof { reveal_strlit("Material"); }
                String::from_str("Material")
            },
            AssetCategory::StaticMesh => {
                proof { reveal_strlit("StaticMesh"); }
                String::from_str("StaticMesh")
            },
            AssetCategory::Texture => {
                proof { reveal_strlit("Texture"); }
                String::from_str("Texture")
            },
            AssetCategory::Asset => {
                proof { reveal_strlit("Asset"); }
                String::from_str("Asset")
            },
        }
    }
}

/// Classifies a file by its kind (map or not) and its stem.
pub fn classify(is_map: bool, stem: &str) -> (r: AssetCategory)
    ensures
        r == category_of(is_map, stem@),
{
    proof {
        reveal_strlit("BP_");
        reveal_strlit("M_");
        reveal_strlit("SM_");
        reveal_strlit("T_");
        assert("BP_"@ =~= blueprint_prefix());
        assert("M_"@ =~= material_prefix());
        assert("SM_"@ =~= static_mesh_prefix());
        assert("T_"@ =~= texture_prefix());
    }
    if is_map {
        AssetCategory::Level
    } else if has_prefix(stem, "BP_") {
        AssetCategory::Blueprint
    } else if has_prefix(stem, "M_") {
        AssetCategory::Material
    } else if has_prefix(stem, "SM_") {
        AssetCategory::StaticMesh
    } else if has_prefix(stem, "T_") {
        AssetCategory::Texture
    } else {
        AssetCategory::Asset
    }
}

/// A map file is a level, whatever its name.
pub proof fn lemma_map_is_level(stem: Seq<char>)
    ensures
        category_of(true, stem) == AssetCategory::Level,
{
}

/// For a non-map file the prefix rules apply in their fixed order: the first
/// prefix that the stem starts with decides the category, and a stem that
/// starts with none of them is a plain asset.
pub proof fn lemma_prefix_rules_in_order(stem: Seq<char>)
    ensures
        starts_with(stem, blueprint_prefix()) ==> category_of(false, stem)
            == AssetCategory::Blueprint,
        !starts_with(stem, blueprint_prefix()) && starts_with(stem, material_prefix())
            ==> category_of(false, stem) == AssetCategory::Material,
        !starts_with(stem, blueprint_prefix()) && !starts_with(stem, material_prefix())
            && starts_with(stem, static_mesh_prefix()) ==> category_of(false, stem)
            == AssetCategory::StaticMesh,
        !starts_with(stem, blueprint_prefix()) && !starts_with(stem, material_prefix())
            && !starts_with(stem, static_mesh_prefix()) && starts_with(stem, texture_prefix())
            ==> category_of(false, stem) == AssetCategory::Texture,
        !starts_with(stem, blueprint_prefix()) && !starts_with(stem, material_prefix())
            && !starts_with(stem, static_mesh_prefix()) && !starts_with(stem, texture_prefix())
            ==> category_of(false, stem) == AssetCategory::Asset,
        category_of(false, stem) != AssetCategory::Level,
{
}

} // verus!
