//! Formulas and the bottles that they offer.
use crate::text::texts;
use crate::text_map::TextMap;
use vstd::prelude::*;

verus! {

/// A bottle to download: where it is and what it hashes to.
#[derive(Debug)]
pub struct BottleFile {
    pub url: String,
    pub sha256: String,
}

/// Model of a [`BottleFile`].
pub struct BottleFileView {
    pub url: Seq<char>,
    pub sha256: Seq<char>,
}

impl BottleFile {
    pub open spec fn view(&self) -> BottleFileView {
        BottleFileView { url: self.url@, sha256: self.sha256@ }
    }
}

impl Clone for BottleFile {
    fn clone(&self) -> (r: Self)
        ensures
            r@ == self@,
    {
        BottleFile { url: self.url.clone(), sha256: self.sha256.clone() }
    }
}

/// The versions of a formula.
pub struct Versions {
    pub stable: String,
}

/// The bottles of the stable version, by platform tag.
pub struct BottleStable {
    pub files: TextMap<BottleFile>,
    pub rebuild: u32,
}

/// The bottles of a formula.
pub struct Bottle {
    pub stable: BottleStable,
}

/// A package that is installed from a bottle.
pub struct Formula {
    pub name: String,
    pub versions: Versions,
    pub dependencies: Vec<String>,
    pub bottle: Bottle,
    pub revision: u32,
}

/// Model of a [`Formula`].
pub struct FormulaView {
    pub name: Seq<char>,
    pub version: Seq<char>,
    pub dependencies: Seq<Seq<char>>,
    pub files: Map<Seq<char>, BottleFileView>,
    pub rebuild: u32,
    pub revision: u32,
}

/// The bottle files of a map, as models.
pub open spec fn file_views(m: Map<Seq<char>, BottleFile>) -> Map<Seq<char>, BottleFileView> {
    m.map_values(|b: BottleFile| b@)
}

impl Formula {
    pub open spec fn view(&self) -> FormulaView {
        FormulaView {
            name: self.name@,
            version: self.versions.stable@,
            dependencies: texts(self.dependencies@),
            files: file_views(self.bottle.stable.files@),
            rebuild: self.bottle.stable.rebuild,
            revision: self.revision,
        }
    }
}

/// A list of strings with the same texts.
pub fn copy_texts(v: &Vec<String>) -> (r: Vec<String>)
    ensures
        texts(r@) == texts(v@),
{
    let mut r: Vec<String> = Vec::new();
    let mut i: usize = 0;
    while i < v.len()
        invariant
            i <= v.len(),
            texts(r@) == texts(v@.take(i as int)),
        decreases v.len() - i,
    {
        r.push(v[i].clone());
        proof {
            assert(texts(r@) =~= texts(v@.take(i as int)).push(v@[i as int]@));
            assert(v@.take(i + 1) =~= v@.take(i as int).push(v@[i as int]));
            assert(texts(v@.take(i + 1)) =~= texts(v@.take(i as int)).push(v@[i as int]@));
        }
        i = i + 1;
    }
    proof {
        assert(v@.take(i as int) =~= v@);
    }
    r
}

fn copy_files(files: &TextMap<BottleFile>) -> (r: TextMap<BottleFile>)
    ensures
        file_views(r@) == file_views(files@),
{
    let keys = files.keys();
    let mut r: TextMap<BottleFile> = TextMap::new();
    let mut i: usize = 0;
    while i < keys.len()
        invariant
            i <= keys.len(),
            forall|k: Seq<char>| texts(keys@).contains(k) <==> #[trigger] files@.contains_key(k),
            forall|k: Seq<char>|
                texts(keys@.take(i as int)).contains(k) <==> #[trigger] r@.contains_key(k),
            forall|k: Seq<char>| #[trigger]
                r@.contains_key(k) ==> files@.contains_key(k) && r@[k]@ == files@[k]@,
        decreases keys.len() - i,
    {
        let ghost held = r@;
        let ghost done = texts(keys@.take(i as int));
        proof {
            assert(texts(keys@)[i as int] == keys@[i as int]@);
            assert(files@.contains_key(keys@[i as int]@));
        }
        match files.get(keys[i].as_str()) {
            Some(file) => {
                r.insert(keys[i].clone(), file.clone());
            },
            None => {},
        }
        proof {
            assert(keys@.take(i + 1) =~= keys@.take(i as int).push(keys@[i as int]));
            assert(texts(keys@.take(i + 1)) =~= done.push(keys@[i as int]@));
            assert forall|k: Seq<char>|
                texts(keys@.take(i + 1)).contains(k) <==> #[trigger] r@.contains_key(k) by {
                assert(done.contains(k) <==> held.contains_key(k));
                if done.contains(k) {
                    let j = choose|j: int| 0 <= j < done.len() && done[j] == k;
                    assert(done.push(keys@[i as int]@)[j] == k);
                }
                if done.push(keys@[i as int]@).contains(k) && k != keys@[i as int]@ {
                    let j = choose|j: int|
                        0 <= j < done.len() + 1 && done.push(keys@[i as int]@)[j] == k;
                    assert(done[j] == k);
                }
                if k == keys@[i as int]@ {
                    assert(done.push(k)[done.len() as int] == k);
                }
            }
        }
        i = i + 1;
    }
    proof {
        assert(keys@.take(i as int) =~= keys@);
        assert forall|k: Seq<char>| #[trigger] files@.contains_key(k) <==> r@.contains_key(k) by {
            assert(texts(keys@).contains(k) <==> files@.contains_key(k));
            assert(texts(keys@.take(i as int)).contains(k) <==> r@.contains_key(k));
        }
        assert(file_views(r@) =~= file_views(files@));
    }
    r
}

impl Clone for Formula {
    fn clone(&self) -> (r: Self)
        ensures
            r@ == self@,
    {
        Formula {
            name: self.name.clone(),
            versions: Versions { stable: self.versions.stable.clone() },
            dependencies: copy_texts(&self.dependencies),
            bottle: Bottle {
                stable: BottleStable {
                    files: copy_files(&self.bottle.stable.files),
                    rebuild: self.bottle.stable.rebuild,
                },
            },
            revision: self.revision,
        }
    }
}

/// The bottle chosen for a formula.
#[derive(Debug)]
pub struct SelectedBottle {
    pub url: String,
    pub sha256: String,
}

impl SelectedBottle {
    pub open spec fn view(&self) -> BottleFileView {
        BottleFileView { url: self.url@, sha256: self.sha256@ }
    }
}

/// The model of a formula holds what the formula holds.
pub proof fn law_formula_model(f: Formula, file: BottleFile, selected: SelectedBottle)
    ensures
        f@.name == f.name@,
        f@.version == f.versions.stable@,
        f@.dependencies == texts(f.dependencies@),
        f@.rebuild == f.bottle.stable.rebuild,
        f@.revision == f.revision,
        forall|tag: Seq<char>| #[trigger]
            f@.files.contains_key(tag) <==> f.bottle.stable.files@.contains_key(tag),
        forall|tag: Seq<char>| #[trigger]
            f@.files.contains_key(tag) ==> f@.files[tag] == f.bottle.stable.files@[tag]@,
        file@.url == file.url@ && file@.sha256 == file.sha256@,
        selected@.url == selected.url@ && selected@.sha256 == selected.sha256@,
{
}

} // verus!
