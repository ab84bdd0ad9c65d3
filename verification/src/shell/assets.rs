//! Where the program's pictures and fonts are looked for.

use vstd::prelude::*;

use crate::paths::{join, parent};

verus! {

broadcast use vstd::string::group_string_axioms;

use crate::paths::{
    joined_path, law_directory_has_all_names_but_the_last, law_joined_path_lies_in_directory, names_of,
    parent_of,
};
use crate::text::{opt_chars, texts};

/// The directories that assets are looked for in, one after the other.
pub struct ShellAssets {
    pub bases: Vec<String>,
}

/// What reading an asset from one directory gave.
pub enum AssetRead {
    Found(Vec<u8>),
    Missing,
    Failed(String),
}

/// The directory of the assets in the bundle that a program lies in.
pub open spec fn bundled_assets(program: Seq<char>) -> Option<Seq<char>> {
    match parent_of(program) {
        Some(directory) => match parent_of(directory) {
            Some(contents) => Some(joined_path(contents, "Resources/assets"@)),
            None => None,
        },
        None => None,
    }
}

/// The directory of the assets in the bundle that a program lies in.
#[must_use]
pub fn bundle_assets_dir(program: &str) -> (r: Option<String>)
    ensures
        opt_chars(r) == bundled_assets(program@),
{
    match parent(program) {
        Some(directory) => match parent(directory.as_str()) {
            Some(contents) => Some(join(contents.as_str(), "Resources/assets")),
            None => None,
        },
        None => None,
    }
}

/// The first place of `reads` from `from` on that does not say that the asset is missing.
pub open spec fn first_answer(reads: Seq<AssetRead>, from: int) -> Option<int>
    decreases reads.len() - from,
{
    if from < 0 || from >= reads.len() {
        None
    } else if reads[from] is Missing {
        first_answer(reads, from + 1)
    } else {
        Some(from)
    }
}

impl ShellAssets {
    /// The directories: the bundle's, where there is one, then that of the sources.
    #[must_use]
    pub fn new(bundle: Option<String>, project: &str) -> (r: Self)
        ensures
            texts(r.bases@) == match bundle {
                Some(directory) => seq![directory@, joined_path(project@, "assets"@)],
                None => seq![joined_path(project@, "assets"@)],
            },
    {
        let mut bases: Vec<String> = Vec::new();
        if let Some(directory) = bundle {
            bases.push(directory);
        }
        bases.push(join(project, "assets"));
        assert(texts(bases@) =~= match bundle {
            Some(directory) => seq![directory@, joined_path(project@, "assets"@)],
            None => seq![joined_path(project@, "assets"@)],
        });
        ShellAssets { bases }
    }

    /// Where an asset is looked for, one place after the other.
    #[must_use]
    pub fn candidates(&self, path: &str) -> (r: Vec<String>)
        ensures
            texts(r@) == texts(self.bases@).map_values(|base: Seq<char>| joined_path(base, path@)),
    {
        let mut places: Vec<String> = Vec::new();
        let mut i: usize = 0;
        while i < self.bases.len()
            invariant
                i <= self.bases.len(),
                places@.len() == i,
                forall|k: int|
                    0 <= k < i ==> (#[trigger] places@[k])@ == joined_path(
                        self.bases@[k]@,
                        path@,
                    ),
            decreases self.bases.len() - i,
        {
            places.push(join(self.bases[i].as_str(), path));
            i += 1;
        }
        assert(texts(places@) =~= texts(self.bases@).map_values(
            |base: Seq<char>| joined_path(base, path@),
        ));
        places
    }

    /// The asset: what the first directory that has it gave, or the first failure; nothing
    /// where every directory lacks it.
    pub fn load(reads: Vec<AssetRead>) -> (r: Result<Option<Vec<u8>>, String>)
        ensures
            match first_answer(reads@, 0) {
                None => r matches Ok(None),
                Some(i) => match reads@[i] {
                    AssetRead::Found(bytes) => r matches Ok(Some(found)) && found == bytes,
                    AssetRead::Failed(error) => r matches Err(e) && e == error,
                    AssetRead::Missing => false,
                },
            },
    {
        let ghost items = reads@;
        for read in it: reads
            invariant
                it.seq() == items,
                first_answer(items, it.index() as int) == first_answer(items, 0),
        {
            let ghost i = it.index() as int;
            assert(items[i] == read);
            match read {
                AssetRead::Found(bytes) => {
                    return Ok(Some(bytes));
                },
                AssetRead::Failed(error) => {
                    return Err(error);
                },
                AssetRead::Missing => {},
            }
        }
        Ok(None)
    }

    /// The directory whose assets are listed: the first that is there, or the first of all.
    /// `present` tells of each directory whether it is there.
    #[must_use]
    pub fn list_base(&self, present: &Vec<bool>) -> (r: String)
        requires
            self.bases@.len() > 0,
            present@.len() == self.bases@.len(),
        ensures
            exists|i: int|
                {
                    &&& 0 <= i < self.bases@.len()
                    &&& r@ == #[trigger] texts(self.bases@)[i]
                    &&& present@[i] || (i == 0 && forall|k: int|
                        0 <= k < present@.len() ==> !#[trigger] present@[k])
                    &&& forall|k: int| 0 <= k < i ==> !#[trigger] present@[k]
                },
    {
        let mut i: usize = 0;
        while i < present.len()
            invariant
                i <= present.len(),
                present@.len() == self.bases@.len(),
                forall|k: int| 0 <= k < i ==> !#[trigger] present@[k],
            decreases present.len() - i,
        {
            if present[i] {
                assert(texts(self.bases@)[i as int] == self.bases@[i as int]@);
                return self.bases[i].clone();
            }
            i += 1;
        }
        assert(texts(self.bases@)[0] == self.bases@[0]@);
        self.bases[0].clone()
    }
}

/// The first directory that has the asset, or fails to read it, answers; those before it miss
/// it.
pub proof fn law_first_directory_with_the_asset_answers(reads: Seq<AssetRead>, from: int)
    requires
        0 <= from,
    ensures
        match first_answer(reads, from) {
            Some(i) => from <= i < reads.len() && !(reads[i] is Missing) && forall|k: int|
                from <= k < i ==> #[trigger] reads[k] is Missing,
            None => forall|k: int| from <= k < reads.len() ==> #[trigger] reads[k] is Missing,
        },
    decreases reads.len() - from,
{
    if from < reads.len() && reads[from] is Missing {
        law_first_directory_with_the_asset_answers(reads, from + 1);
    }
}

/// The assets of a bundle lie beside the directory that the program lies in.
pub proof fn law_bundle_has_its_assets_beside_the_program(program: Seq<char>)
    ensures
        bundled_assets(program) matches Some(assets) ==> names_of(program).len() >= 2 && names_of(
            assets,
        ) == names_of(program).drop_last().drop_last().push("Resources"@).push("assets"@),
{
    if let Some(assets) = bundled_assets(program) {
        reveal_strlit("Resources/assets");
        reveal_strlit("Resources");
        reveal_strlit("assets");
        reveal_strlit(".");
        let directory = parent_of(program)->0;
        let contents = parent_of(directory)->0;
        law_directory_has_all_names_but_the_last(program);
        law_directory_has_all_names_but_the_last(directory);
        assert("Resources"@.len() == 9 && "assets"@.len() == 6);
        assert("Resources/assets"@ =~= "Resources"@.push('/') + "assets"@);
        let resources = joined_path(contents, "Resources"@);
        law_joined_path_lies_in_directory(contents, "Resources"@);
        law_joined_path_lies_in_directory(resources, "assets"@);
        assert(resources.last() == "Resources"@[8]);
        assert(assets =~= joined_path(resources, "assets"@));
    }
}

} // verus!
