//! Localization: per-language text tables with fallback to the reference
//! language, and discovery of the available languages.
use crate::dirs::{has_file, listing_of, views_of, DirEntry, DirLoadable, DirSource};
use crate::assets::ResourceError;
use vstd::prelude::*;
use vstd::string::StringExecFns;

verus! {

/// The reference language, also the default at first startup.
pub const REFERENCE_LANG: &'static str = "en";

/// Extension of the language files.
pub const LANG_EXTENSION: &'static str = "ron";

/// Name of a language directory's manifest file.
pub const LANG_MANIFEST_FILE: &'static str = "_manifest";

/// How a language is described.
#[derive(Clone, Debug, PartialEq, Eq)]
pub struct LanguageMetadata {
    /// A human friendly language name (for instance "English (US)").
    pub language_name: String,
    /// A short, stable identifier (for instance "en_US"), the value
    /// settings store.
    pub language_identifier: String,
}

impl LanguageMetadata {
    /// An equal, independently owned copy.
    pub fn copied(&self) -> (r: LanguageMetadata)
        ensures
            r == *self,
    {
        LanguageMetadata {
            language_name: self.language_name.clone(),
            language_identifier: self.language_identifier.clone(),
        }
    }
}

/// The first value under `key` in a text table.
pub open spec fn lookup_str(entries: Seq<(String, String)>, key: Seq<char>) -> Option<Seq<char>>
    decreases entries.len(),
{
    if entries.len() == 0 {
        None
    } else if entries[0].0@ == key {
        Some(entries[0].1@)
    } else {
        lookup_str(entries.skip(1), key)
    }
}

/// The first value under `key` in a variation table.
pub open spec fn lookup_vec(entries: Seq<(String, Vec<String>)>, key: Seq<char>) -> Option<
    Seq<String>,
>
    decreases entries.len(),
{
    if entries.len() == 0 {
        None
    } else if entries[0].0@ == key {
        Some(entries[0].1@)
    } else {
        lookup_vec(entries.skip(1), key)
    }
}

/// A reference key the active text table lacks.
pub open spec fn absent_sel(active: Seq<(String, String)>) -> spec_fn(Seq<char>) -> Option<
    Seq<char>,
> {
    |k: Seq<char>|
        if lookup_str(active, k) is None {
            Some(k)
        } else {
            None
        }
}

/// A reference key the active variation table lacks.
pub open spec fn vec_absent_sel(active: Seq<(String, Vec<String>)>) -> spec_fn(Seq<char>) -> Option<
    Seq<char>,
> {
    |k: Seq<char>|
        if lookup_vec(active, k) is None {
            Some(k)
        } else {
            None
        }
}

/// One language's localization data.
pub struct Language {
    /// Localized texts by key.
    pub string_map: Vec<(String, String)>,
    /// Variations of localized texts by key, for texts said many ways.
    pub vector_map: Vec<(String, Vec<String>)>,
    /// Whether text should be reduced to ASCII before display.
    pub convert_utf8_to_ascii: bool,
    pub metadata: LanguageMetadata,
}

impl Language {
    /// The localized text under `key`, if this language has one.
    pub fn get(&self, key: &str) -> (r: Option<String>)
        ensures
            match lookup_str(self.string_map@, key@) {
                Some(v) => r matches Some(s) && s@ == v,
                None => r is None,
            },
    {
        let owned = String::from_str(key);
        let mut i: usize = 0;
        proof {
            assert(self.string_map@.skip(0) =~= self.string_map@);
        }
        while i < self.string_map.len()
            invariant
                i <= self.string_map@.len(),
                owned@ == key@,
                lookup_str(self.string_map@, key@) == lookup_str(
                    self.string_map@.skip(i as int),
                    key@,
                ),
            decreases self.string_map@.len() - i,
        {
            proof {
                assert(self.string_map@.skip(i as int)[0] == self.string_map@[i as int]);
                assert(self.string_map@.skip(i as int).skip(1) =~= self.string_map@.skip(i + 1));
            }
            if self.string_map[i].0.eq(&owned) {
                return Some(self.string_map[i].1.clone());
            }
            i = i + 1;
        }
        proof {
            assert(self.string_map@.skip(i as int).len() == 0);
        }
        None
    }

    /// Whether this language has variations under `key`.
    pub fn has_variation_key(&self, key: &str) -> (r: bool)
        ensures
            r == (lookup_vec(self.vector_map@, key@) is Some),
    {
        let owned = String::from_str(key);
        let mut i: usize = 0;
        proof {
            assert(self.vector_map@.skip(0) =~= self.vector_map@);
        }
        while i < self.vector_map.len()
            invariant
                i <= self.vector_map@.len(),
                owned@ == key@,
                lookup_vec(self.vector_map@, key@) == lookup_vec(
                    self.vector_map@.skip(i as int),
                    key@,
                ),
            decreases self.vector_map@.len() - i,
        {
            proof {
                assert(self.vector_map@.skip(i as int)[0] == self.vector_map@[i as int]);
                assert(self.vector_map@.skip(i as int).skip(1) =~= self.vector_map@.skip(i + 1));
            }
            if self.vector_map[i].0.eq(&owned) {
                return true;
            }
            i = i + 1;
        }
        proof {
            assert(self.vector_map@.skip(i as int).len() == 0);
        }
        false
    }

    /// A variation of the localized text under `key`: entry `index` modulo
    /// how many variations there are.  `index` is typically a random number
    /// from `0` to `u16::MAX`.
    pub fn get_variation(&self, key: &str, index: u16) -> (r: Option<String>)
        ensures
            match lookup_vec(self.vector_map@, key@) {
                Some(v) => {
                    if v.len() == 0 {
                        r is None
                    } else {
                        r matches Some(s) && s@ == v[index as int % v.len() as int]@
                    }
                },
                None => r is None,
            },
    {
        let owned = String::from_str(key);
        let mut i: usize = 0;
        proof {
            assert(self.vector_map@.skip(0) =~= self.vector_map@);
        }
        while i < self.vector_map.len()
            invariant
                i <= self.vector_map@.len(),
                owned@ == key@,
                lookup_vec(self.vector_map@, key@) == lookup_vec(
                    self.vector_map@.skip(i as int),
                    key@,
                ),
            decreases self.vector_map@.len() - i,
        {
            proof {
                assert(self.vector_map@.skip(i as int)[0] == self.vector_map@[i as int]);
                assert(self.vector_map@.skip(i as int).skip(1) =~= self.vector_map@.skip(i + 1));
            }
            if self.vector_map[i].0.eq(&owned) {
                let v = &self.vector_map[i].1;
                if v.len() == 0 {
                    return None;
                }
                let at = (index as usize) % v.len();
                return Some(v[at].clone());
            }
            i = i + 1;
        }
        proof {
            assert(self.vector_map@.skip(i as int).len() == 0);
        }
        None
    }

}

/// The manifest id a directory entry contributes: its own id with the
/// manifest file name appended, when that manifest file exists in the
/// source.
pub open spec fn manifest_sel(files: Seq<(String, String)>) -> spec_fn(DirEntry) -> Option<
    Seq<char>,
> {
    |e: DirEntry|
        match e {
            DirEntry::Directory(d) => {
                let spec_name = d@ + "."@ + LANG_MANIFEST_FILE@;
                if has_file(files, spec_name, LANG_EXTENSION@) {
                    Some(spec_name)
                } else {
                    None
                }
            },
            _ => None,
        }
}

/// Finds the language manifests under a directory: one id per language
/// subdirectory whose manifest file exists.
pub struct FindManifests;

/// The manifest ids of the language subdirectories of `id`, in listing
/// order; fails with `NotExists` when the source cannot read the directory.
pub fn find_manifest_ids(source: &DirSource, id: &str) -> (r: Result<Vec<String>, ResourceError>)
    ensures
        ({
            match listing_of(source.listings@, id@) {
                Some(entries) => r matches Ok(ids) && crate::dirs::views_of(ids@)
                    == entries.filter_map(manifest_sel(source.files@)),
                None => r matches Err(e) && (e matches ResourceError::NotExists(n) && n@ == id@),
            }
        }),
{
    let owned = String::from_str(id);
    let ext_owned = String::from_str(LANG_EXTENSION);
    let entries = match source.listing(&owned) {
        Some(v) => v,
        None => {
            return Err(ResourceError::NotExists(owned));
        },
    };
    let ghost sel = manifest_sel(source.files@);
    let mut ids: Vec<String> = Vec::new();
    let mut i: usize = 0;
    proof {
        assert(entries@.take(0) =~= Seq::<DirEntry>::empty());
        assert(crate::dirs::views_of(ids@) =~= entries@.take(0).filter_map(sel));
    }
    while i < entries.len()
        invariant
            i <= entries@.len(),
            ext_owned@ == LANG_EXTENSION@,
            sel == manifest_sel(source.files@),
            crate::dirs::views_of(ids@) == entries@.take(i as int).filter_map(sel),
        decreases entries@.len() - i,
    {
        proof {
            assert(entries@.take(i + 1).drop_last() =~= entries@.take(i as int));
            assert(entries@.take(i + 1).last() == entries@[i as int]);
        }
        match &entries[i] {
            DirEntry::Directory(d) => {
                let mut manifest_spec = d.clone();
                manifest_spec.append(".");
                manifest_spec.append(LANG_MANIFEST_FILE);
                proof {
                    assert(manifest_spec@ == d@ + "."@ + LANG_MANIFEST_FILE@);
                }
                if source.exists_file(&manifest_spec, &ext_owned) {
                    ids.push(manifest_spec);
                    proof {
                        assert(sel(entries@[i as int]) == Some(d@ + "."@ + LANG_MANIFEST_FILE@));
                        assert(crate::dirs::views_of(ids@) =~= entries@.take(i + 1).filter_map(
                            sel,
                        ));
                    }
                } else {
                    proof {
                        assert(sel(entries@[i as int]) is None);
                        assert(crate::dirs::views_of(ids@) =~= entries@.take(i + 1).filter_map(
                            sel,
                        ));
                    }
                }
            },
            DirEntry::File(_, _) => {
                proof {
                    assert(sel(entries@[i as int]) is None);
                    assert(crate::dirs::views_of(ids@) =~= entries@.take(i + 1).filter_map(sel));
                }
            },
        }
        i = i + 1;
    }
    proof {
        assert(entries@.take(entries@.len() as int) =~= entries@);
    }
    Ok(ids)
}

impl DirLoadable for FindManifests {
    open spec fn selects(source: DirSource, entries: Seq<DirEntry>) -> Seq<Seq<char>> {
        entries.filter_map(manifest_sel(source.files@))
    }

    fn select_ids(source: &DirSource, id: &str) -> Result<Vec<String>, ResourceError> {
        find_manifest_ids(source, id)
    }
}

/// Parsed language manifests by manifest id.
pub struct ManifestStore {
    pub entries: Vec<(String, LanguageMetadata)>,
}

/// The metadata parsed from manifest `name`, if it loaded.
pub open spec fn lookup_meta(entries: Seq<(String, LanguageMetadata)>, name: Seq<char>) -> Option<
    LanguageMetadata,
>
    decreases entries.len(),
{
    if entries.len() == 0 {
        None
    } else if entries[0].0@ == name {
        Some(entries[0].1)
    } else {
        lookup_meta(entries.skip(1), name)
    }
}

impl ManifestStore {
    /// The metadata under `name`, mirroring `lookup_meta`.
    fn get(&self, name: &String) -> (r: Option<&LanguageMetadata>)
        ensures
            match r {
                Some(m) => lookup_meta(self.entries@, name@) == Some(*m),
                None => lookup_meta(self.entries@, name@) is None,
            },
    {
        let mut i: usize = 0;
        proof {
            assert(self.entries@.skip(0) =~= self.entries@);
        }
        while i < self.entries.len()
            invariant
                i <= self.entries@.len(),
                lookup_meta(self.entries@, name@) == lookup_meta(
                    self.entries@.skip(i as int),
                    name@,
                ),
            decreases self.entries@.len() - i,
        {
            proof {
                assert(self.entries@.skip(i as int)[0] == self.entries@[i as int]);
                assert(self.entries@.skip(i as int).skip(1) =~= self.entries@.skip(i + 1));
            }
            if self.entries[i].0.eq(name) {
                return Some(&self.entries[i].1);
            }
            i = i + 1;
        }
        proof {
            assert(self.entries@.skip(i as int).len() == 0);
        }
        None
    }
}

/// The metadata of every available language: one entry per language
/// directory whose manifest exists and parsed, in listing order.
pub fn list_localizations(source: &DirSource, manifests: &ManifestStore) -> (r: Vec<
    LanguageMetadata,
>)
    requires
        listing_of(source.listings@, "voxygen.i18n"@) is Some,
    ensures
        ({
            let entries = listing_of(source.listings@, "voxygen.i18n"@)->Some_0;
            let specs = entries.filter_map(manifest_sel(source.files@));
            r@ == specs.filter_map(
                |n: Seq<char>| lookup_meta(manifests.entries@, n),
            )
        }),
{
    let specs = match find_manifest_ids(source, "voxygen.i18n") {
        Ok(v) => v,
        Err(_) => Vec::new(),
    };
    let ghost specsv = crate::dirs::views_of(specs@);
    let ghost sel = |n: Seq<char>| lookup_meta(manifests.entries@, n);
    let mut out: Vec<LanguageMetadata> = Vec::new();
    let mut i: usize = 0;
    proof {
        assert(specsv.take(0) =~= Seq::<Seq<char>>::empty());
        assert(out@ =~= specsv.take(0).filter_map(sel));
    }
    while i < specs.len()
        invariant
            i <= specs@.len(),
            specsv == crate::dirs::views_of(specs@),
            sel == (|n: Seq<char>| lookup_meta(manifests.entries@, n)),
            out@ == specsv.take(i as int).filter_map(sel),
        decreases specs@.len() - i,
    {
        proof {
            assert(specsv.take(i + 1).drop_last() =~= specsv.take(i as int));
            assert(specsv.take(i + 1).last() == specs@[i as int]@);
        }
        match manifests.get(&specs[i]) {
            Some(m) => {
                out.push(m.copied());
                proof {
                    assert(out@ =~= specsv.take(i + 1).filter_map(sel));
                }
            },
            None => {
                proof {
                    assert(out@ =~= specsv.take(i + 1).filter_map(sel));
                }
            },
        }
        i = i + 1;
    }
    proof {
        assert(specsv.take(specsv.len() as int) =~= specsv);
    }
    out
}

/// A read snapshot of the active language and, when enabled, the reference
/// language as fallback.
pub struct LocalizationGuard<'a> {
    pub active: &'a Language,
    pub fallback: Option<&'a Language>,
}

impl<'a> LocalizationGuard<'a> {
    /// The localized text under `key`: from the active language first, from
    /// the fallback second, and the key itself when neither has it.
    pub fn get(&self, key: &str) -> (r: String)
        ensures
            r@ == match lookup_str(self.active.string_map@, key@) {
                Some(v) => v,
                None => match self.fallback {
                    Some(f) => match lookup_str(f.string_map@, key@) {
                        Some(v) => v,
                        None => key@,
                    },
                    None => key@,
                },
            },
    {
        match self.active.get(key) {
            Some(s) => s,
            None => {
                match self.fallback {
                    Some(f) => match f.get(key) {
                        Some(s) => s,
                        None => String::from_str(key),
                    },
                    None => String::from_str(key),
                }
            },
        }
    }

    /// A variation of the localized text under `key`, with the same
    /// fallback chain as `get`.
    pub fn get_variation(&self, key: &str, index: u16) -> (r: String)
        ensures
            r@ == match lookup_vec(self.active.vector_map@, key@) {
                Some(v) if v.len() > 0 => v[index as int % v.len() as int]@,
                _ => match self.fallback {
                    Some(f) => match lookup_vec(f.vector_map@, key@) {
                        Some(v) if v.len() > 0 => v[index as int % v.len() as int]@,
                        _ => key@,
                    },
                    None => key@,
                },
            },
    {
        match self.active.get_variation(key, index) {
            Some(s) => s,
            None => {
                match self.fallback {
                    Some(f) => match f.get_variation(key, index) {
                        Some(s) => s,
                        None => String::from_str(key),
                    },
                    None => String::from_str(key),
                }
            },
        }
    }

    /// The active language's metadata.
    pub fn metadata(&self) -> (r: &LanguageMetadata)
        ensures
            *r == self.active.metadata,
    {
        &self.active.metadata
    }

    /// The keys the reference language has and the active language lacks:
    /// the missing text keys and the missing variation keys, each listed
    /// once, in the reference language's order.  Without a fallback nothing
    /// can be missing.
    pub fn list_missing_entries(&self) -> (r: (Vec<String>, Vec<String>))
        ensures
            match self.fallback {
                Some(f) => views_of(r.0@) == crate::dirs::dedup_first(
                    f.string_map@.map_values(|e: (String, String)| e.0@).filter_map(
                        absent_sel(self.active.string_map@),
                    ),
                ) && views_of(r.1@) == crate::dirs::dedup_first(
                    f.vector_map@.map_values(|e: (String, Vec<String>)| e.0@).filter_map(
                        vec_absent_sel(self.active.vector_map@),
                    ),
                ) && crate::dirs::ids_distinct(r.0@) && crate::dirs::ids_distinct(r.1@),
                None => r.0@.len() == 0 && r.1@.len() == 0,
            },
    {
        let f = match self.fallback {
            Some(f) => f,
            None => {
                return (Vec::new(), Vec::new());
            },
        };
        let ghost skeys = f.string_map@.map_values(|e: (String, String)| e.0@);
        let ghost ssel = absent_sel(self.active.string_map@);
        let mut strings: Vec<String> = Vec::new();
        let mut i: usize = 0;
        proof {
            assert(skeys.take(0) =~= Seq::<Seq<char>>::empty());
            assert(views_of(strings@) =~= skeys.take(0).filter_map(ssel));
        }
        while i < f.string_map.len()
            invariant
                i <= f.string_map@.len(),
                skeys == f.string_map@.map_values(|e: (String, String)| e.0@),
                ssel == absent_sel(self.active.string_map@),
                views_of(strings@) == skeys.take(i as int).filter_map(ssel),
            decreases f.string_map@.len() - i,
        {
            proof {
                assert(skeys.take(i + 1).drop_last() =~= skeys.take(i as int));
                assert(skeys.take(i + 1).last() == f.string_map@[i as int].0@);
            }
            if self.active.get(f.string_map[i].0.as_str()).is_none() {
                strings.push(f.string_map[i].0.clone());
                proof {
                    assert(views_of(strings@) =~= skeys.take(i + 1).filter_map(ssel));
                }
            } else {
                proof {
                    assert(views_of(strings@) =~= skeys.take(i + 1).filter_map(ssel));
                }
            }
            i = i + 1;
        }
        let ghost vkeys = f.vector_map@.map_values(|e: (String, Vec<String>)| e.0@);
        let ghost vsel = vec_absent_sel(self.active.vector_map@);
        let mut vectors: Vec<String> = Vec::new();
        let mut j: usize = 0;
        proof {
            assert(skeys.take(skeys.len() as int) =~= skeys);
            assert(vkeys.take(0) =~= Seq::<Seq<char>>::empty());
            assert(views_of(vectors@) =~= vkeys.take(0).filter_map(vsel));
        }
        while j < f.vector_map.len()
            invariant
                j <= f.vector_map@.len(),
                views_of(strings@) == skeys.filter_map(ssel),
                skeys == f.string_map@.map_values(|e: (String, String)| e.0@),
                ssel == absent_sel(self.active.string_map@),
                vkeys == f.vector_map@.map_values(|e: (String, Vec<String>)| e.0@),
                vsel == vec_absent_sel(self.active.vector_map@),
                views_of(vectors@) == vkeys.take(j as int).filter_map(vsel),
            decreases f.vector_map@.len() - j,
        {
            proof {
                assert(vkeys.take(j + 1).drop_last() =~= vkeys.take(j as int));
                assert(vkeys.take(j + 1).last() == f.vector_map@[j as int].0@);
            }
            if self.active.has_variation_key(f.vector_map[j].0.as_str()) {
                proof {
                    assert(views_of(vectors@) =~= vkeys.take(j + 1).filter_map(vsel));
                }
            } else {
                vectors.push(f.vector_map[j].0.clone());
                proof {
                    assert(views_of(vectors@) =~= vkeys.take(j + 1).filter_map(vsel));
                }
            }
            j = j + 1;
        }
        proof {
            assert(vkeys.take(vkeys.len() as int) =~= vkeys);
        }
        (crate::dirs::dedup_ids(strings), crate::dirs::dedup_ids(vectors))
    }
}

/// The first language stored under `key`, by value.
pub open spec fn lookup_lang(entries: Seq<(String, Language)>, key: Seq<char>) -> Option<Language>
    decreases entries.len(),
{
    if entries.len() == 0 {
        None
    } else if entries[0].0@ == key {
        Some(entries[0].1)
    } else {
        lookup_lang(entries.skip(1), key)
    }
}

/// Loaded languages by their full key, handed out by value: taking a
/// language removes it from the store.
pub struct LanguageStore {
    pub languages: Vec<(String, Language)>,
}

impl LanguageStore {
    /// Take the language under `key` out of the store, if it is there.
    pub fn take(&mut self, key: &String) -> (r: Option<Language>)
        ensures
            match lookup_lang(old(self).languages@, key@) {
                Some(lang) => (r == Some(lang)) && (forall|n: Seq<char>|
                    n != key@ ==> lookup_lang(final(self).languages@, n) == lookup_lang(
                        old(self).languages@,
                        n,
                    )),
                None => r is None && final(self).languages@ == old(self).languages@,
            },
    {
        let mut i: usize = 0;
        proof {
            assert(self.languages@.skip(0) =~= self.languages@);
        }
        while i < self.languages.len()
            invariant
                i <= self.languages@.len(),
                self.languages@ == old(self).languages@,
                forall|j: int| 0 <= j < i ==> (#[trigger] self.languages@[j]).0@ != key@,
                lookup_lang(self.languages@, key@) == lookup_lang(
                    self.languages@.skip(i as int),
                    key@,
                ),
            decreases self.languages@.len() - i,
        {
            proof {
                assert(self.languages@.skip(i as int)[0] == self.languages@[i as int]);
                assert(self.languages@.skip(i as int).skip(1) =~= self.languages@.skip(i + 1));
            }
            if self.languages[i].0.eq(key) {
                let ghost entries0 = self.languages@;
                let entry = self.languages.remove(i);
                proof {
                    lemma_lookup_lang_after_remove(entries0, i as int, key@);
                }
                return Some(entry.1);
            }
            i = i + 1;
        }
        proof {
            assert(self.languages@.skip(i as int).len() == 0);
        }
        None
    }
}

/// Removing the first entry that carried `key` (no earlier entry does)
/// leaves every other key bound as before.
pub proof fn lemma_lookup_lang_after_remove(entries: Seq<(String, Language)>, i: int, key: Seq<char>)
    requires
        0 <= i < entries.len(),
        entries[i].0@ == key,
        forall|j: int| 0 <= j < i ==> (#[trigger] entries[j]).0@ != key,
    ensures
        forall|n: Seq<char>|
            n != key ==> lookup_lang(entries.remove(i), n) == lookup_lang(entries, n),
    decreases i,
{
    if i == 0 {
        assert forall|n: Seq<char>| n != key implies lookup_lang(entries.remove(0), n)
            == lookup_lang(entries, n) by {
            assert(entries.remove(0) =~= entries.skip(1));
        }
    } else {
        assert(entries.skip(1)[i - 1] == entries[i]);
        assert(forall|j: int|
            0 <= j < i - 1 ==> (#[trigger] entries.skip(1)[j]).0@ != key);
        lemma_lookup_lang_after_remove(entries.skip(1), i - 1, key);
        assert(entries.remove(i).skip(1) =~= entries.skip(1).remove(i - 1));
        assert(entries.remove(i)[0] == entries[0]);
        assert forall|n: Seq<char>| n != key implies lookup_lang(entries.remove(i), n)
            == lookup_lang(entries, n) by {
            assert(lookup_lang(entries.skip(1).remove(i - 1), n) == lookup_lang(
                entries.skip(1),
                n,
            ));
        }
    }
}

/// The central handle on localization: the active language, the reference
/// language for fallback, and whether fallback is enabled.
pub struct LocalizationHandle {
    pub active: Language,
    pub fallback: Option<Language>,
    pub use_english_fallback: bool,
}

impl LocalizationHandle {
    /// Turn fallback to the reference language on or off.
    pub fn set_english_fallback(&mut self, use_english_fallback: bool)
        ensures
            final(self).active == old(self).active,
            final(self).fallback == old(self).fallback,
            final(self).use_english_fallback == use_english_fallback,
    {
        self.use_english_fallback = use_english_fallback;
    }

    /// Take the language under "voxygen.i18n." + `specifier` out of the
    /// store as the active language; unless that already is the reference
    /// language, take the reference language too, as the fallback.
    /// Fallback use starts disabled.  An absent language is the one error,
    /// reported with the full key; an absent reference language only means
    /// no fallback.
    pub fn load(store: &mut LanguageStore, specifier: &str) -> (r: Result<
        LocalizationHandle,
        ResourceError,
    >)
        ensures
            ({
                let key = "voxygen.i18n."@ + specifier@;
                let default_key = "voxygen.i18n."@ + REFERENCE_LANG@;
                match lookup_lang(old(store).languages@, key) {
                    Some(lang) => r matches Ok(h) && h.active == lang
                        && !h.use_english_fallback && (key == default_key ==> h.fallback is None)
                        && (key != default_key ==> h.fallback == lookup_lang(
                        old(store).languages@,
                        default_key,
                    )),
                    None => r matches Err(e) && (e matches ResourceError::NotExists(n) && n@
                        == key),
                }
            }),
    {
        let mut language_key = String::from_str("voxygen.i18n.");
        language_key.append(specifier);
        let mut default_key = String::from_str("voxygen.i18n.");
        default_key.append(REFERENCE_LANG);
        let is_default = language_key.eq(&default_key);
        let active = match store.take(&language_key) {
            Some(lang) => lang,
            None => {
                return Err(ResourceError::NotExists(language_key));
            },
        };
        let fallback = if is_default {
            None
        } else {
            store.take(&default_key)
        };
        Ok(LocalizationHandle { active, fallback, use_english_fallback: false })
    }

    /// As `load`, for a language the caller knows is in the store.
    pub fn load_expect(store: &mut LanguageStore, specifier: &str) -> (r: LocalizationHandle)
        requires
            lookup_lang(old(store).languages@, "voxygen.i18n."@ + specifier@) is Some,
        ensures
            r.active == lookup_lang(
                old(store).languages@,
                "voxygen.i18n."@ + specifier@,
            )->Some_0,
            !r.use_english_fallback,
    {
        match Self::load(store, specifier) {
            Ok(handle) => handle,
            Err(_) => LocalizationHandle {
                active: Language {
                    string_map: Vec::new(),
                    vector_map: Vec::new(),
                    convert_utf8_to_ascii: false,
                    metadata: LanguageMetadata {
                        language_name: String::new(),
                        language_identifier: String::new(),
                    },
                },
                fallback: None,
                use_english_fallback: false,
            },
        }
    }

    /// A read snapshot; the fallback only participates when enabled.
    pub fn read(&self) -> (r: LocalizationGuard<'_>)
        ensures
            *r.active == self.active,
            self.use_english_fallback ==> r.fallback == (match self.fallback {
                Some(_) => Some(&self.fallback->Some_0),
                None => None::<&Language>,
            }),
            !self.use_english_fallback ==> r.fallback is None,
    {
        LocalizationGuard {
            active: &self.active,
            fallback: if self.use_english_fallback {
                self.fallback.as_ref()
            } else {
                None
            },
        }
    }
}

} // verus!
