//! Directory handles over the asset source: list a directory, keep the ids
//! of the assets it holds (duplicates removed), and walk them against the
//! cache.
use crate::assets::{lookup_bytes, AssetStore, ResourceError};
use vstd::prelude::*;
use vstd::string::StrSliceExecFns;
use vstd::string::StringExecFns;

verus! {

/// One entry of a listed directory.
#[derive(Debug)]
pub enum DirEntry {
    /// A file: its id and its extension.
    File(String, String),
    /// A subdirectory: its id.
    Directory(String),
}

/// What the asset source can list: directory contents, and which files
/// exist.
pub struct DirSource {
    pub listings: Vec<(String, Vec<DirEntry>)>,
    pub files: Vec<(String, String)>,
}

/// The entries listed under directory `id`, if the source can read it.
pub open spec fn listing_of(ls: Seq<(String, Vec<DirEntry>)>, id: Seq<char>) -> Option<
    Seq<DirEntry>,
>
    decreases ls.len(),
{
    if ls.len() == 0 {
        None
    } else if ls[0].0@ == id {
        Some(ls[0].1@)
    } else {
        listing_of(ls.skip(1), id)
    }
}

/// Whether a file `id`.`ext` exists in the source.
pub open spec fn has_file(files: Seq<(String, String)>, id: Seq<char>, ext: Seq<char>) -> bool {
    exists|i: int|
        0 <= i < files.len() && (#[trigger] files[i]).0@ == id && files[i].1@ == ext
}

/// The id a file entry contributes when its extension matches.
pub open spec fn ext_sel(ext: Seq<char>) -> spec_fn(DirEntry) -> Option<Seq<char>> {
    |e: DirEntry|
        match e {
            DirEntry::File(id, x) => if x@ == ext {
                Some(id@)
            } else {
                None
            },
            DirEntry::Directory(_) => None,
        }
}

/// The ids of the files with extension `ext` among `entries`, in listing
/// order.
pub open spec fn ids_with_ext(entries: Seq<DirEntry>, ext: Seq<char>) -> Seq<Seq<char>> {
    entries.filter_map(ext_sel(ext))
}

/// The views of a vector of ids.
pub open spec fn views_of(ids: Seq<String>) -> Seq<Seq<char>> {
    ids.map_values(|s: String| s@)
}

/// The id itself, when the cache holds bytes under it.
pub open spec fn cached_sel(data: Seq<(String, Vec<u8>)>) -> spec_fn(Seq<char>) -> Option<
    Seq<char>,
> {
    |n: Seq<char>|
        if lookup_bytes(data, n) is Some {
            Some(n)
        } else {
            None
        }
}

/// Whether some id in the list reads `n`.
pub open spec fn has_id(ids: Seq<String>, n: Seq<char>) -> bool {
    exists|i: int| 0 <= i < ids.len() && (#[trigger] ids[i])@ == n
}

/// No two ids in the list read the same.
pub open spec fn ids_distinct(ids: Seq<String>) -> bool {
    forall|i: int, j: int| 0 <= i < j < ids.len() ==> (#[trigger] ids[i])@ != (#[trigger] ids[j])@
}

impl DirSource {
    /// The entries under `id`, mirroring `listing_of`.
    pub(crate) fn listing(&self, id: &String) -> (r: Option<&Vec<DirEntry>>)
        ensures
            match r {
                Some(v) => listing_of(self.listings@, id@) == Some(v@),
                None => listing_of(self.listings@, id@) is None,
            },
    {
        let mut i: usize = 0;
        proof {
            assert(self.listings@.skip(0) =~= self.listings@);
        }
        while i < self.listings.len()
            invariant
                i <= self.listings@.len(),
                listing_of(self.listings@, id@) == listing_of(
                    self.listings@.skip(i as int),
                    id@,
                ),
            decreases self.listings@.len() - i,
        {
            proof {
                assert(self.listings@.skip(i as int)[0] == self.listings@[i as int]);
                assert(self.listings@.skip(i as int).skip(1) =~= self.listings@.skip(i + 1));
            }
            if self.listings[i].0.eq(id) {
                return Some(&self.listings[i].1);
            }
            i = i + 1;
        }
        proof {
            assert(self.listings@.skip(i as int).len() == 0);
        }
        None
    }

    /// Whether the file `id`.`ext` exists, mirroring `has_file`.
    pub fn exists_file(&self, id: &String, ext: &String) -> (r: bool)
        ensures
            r == has_file(self.files@, id@, ext@),
    {
        let mut i: usize = 0;
        while i < self.files.len()
            invariant
                i <= self.files@.len(),
                forall|j: int|
                    0 <= j < i ==> !((#[trigger] self.files@[j]).0@ == id@ && self.files@[j].1@
                        == ext@),
            decreases self.files@.len() - i,
        {
            if self.files[i].0.eq(id) && self.files[i].1.eq(ext) {
                return true;
            }
            i = i + 1;
        }
        false
    }
}

/// An asset type whose instances can be found by listing a directory.
///
/// What an implementation selects — which entries, and what id each one
/// contributes — is its own, and `selects` says it; `select_ids` is held to
/// that choice on every source and directory.
pub trait DirLoadable: Sized {
    /// The ids this type selects, in listing order, from the entries of a
    /// directory of `source`.
    spec fn selects(source: DirSource, entries: Seq<DirEntry>) -> Seq<Seq<char>>;

    /// The ids of the assets of this type in directory `id` — exactly
    /// `Self::selects` of its listing — or `NotExists` with the directory
    /// id when the source cannot read it.
    fn select_ids(source: &DirSource, id: &str) -> (r: Result<Vec<String>, ResourceError>)
        ensures
            match listing_of(source.listings@, id@) {
                Some(entries) => r matches Ok(ids) && views_of(ids@) == Self::selects(
                    *source,
                    entries,
                ),
                None => r matches Err(e) && (e matches ResourceError::NotExists(n) && n@ == id@),
            },
    ;
}

/// The ids of the files carrying extension `ext` in directory `id`, in
/// listing order; fails with `NotExists` when the source cannot read the
/// directory.
pub fn select_ids_with_ext(source: &DirSource, id: &str, ext: &str) -> (r: Result<
    Vec<String>,
    ResourceError,
>)
    ensures
        ({
            match listing_of(source.listings@, id@) {
                Some(entries) => r matches Ok(ids) && views_of(ids@) == ids_with_ext(
                    entries,
                    ext@,
                ),
                None => r matches Err(e) && (e matches ResourceError::NotExists(n) && n@ == id@),
            }
        }),
{
    let owned = String::from_str(id);
    let ext_owned = String::from_str(ext);
    let entries = match source.listing(&owned) {
        Some(v) => v,
        None => {
            return Err(ResourceError::NotExists(owned));
        },
    };
    let mut ids: Vec<String> = Vec::new();
    let mut i: usize = 0;
    proof {
        assert(entries@.take(0) =~= Seq::<DirEntry>::empty());
        assert(views_of(ids@) =~= ids_with_ext(entries@.take(0), ext@));
    }
    while i < entries.len()
        invariant
            i <= entries@.len(),
            ext_owned@ == ext@,
            views_of(ids@) == ids_with_ext(entries@.take(i as int), ext@),
        decreases entries@.len() - i,
    {
        proof {
            assert(entries@.take(i + 1).drop_last() =~= entries@.take(i as int));
            assert(entries@.take(i + 1).last() == entries@[i as int]);
        }
        proof {
            assert(ext_owned@ == ext@);
        }
        match &entries[i] {
            DirEntry::File(fid, x) => {
                if x.eq(&ext_owned) {
                    ids.push(fid.clone());
                    proof {
                        assert(ext_sel(ext@)(entries@[i as int]) == Some(fid@));
                        assert(views_of(ids@) =~= ids_with_ext(entries@.take(i + 1), ext@));
                    }
                } else {
                    proof {
                        assert(x@ != ext@);
                        assert(ext_sel(ext@)(entries@[i as int]) is None);
                        assert(views_of(ids@) =~= ids_with_ext(entries@.take(i + 1), ext@));
                    }
                }
            },
            DirEntry::Directory(_) => {
                proof {
                    assert(ext_sel(ext@)(entries@[i as int]) is None);
                    assert(views_of(ids@) =~= ids_with_ext(entries@.take(i + 1), ext@));
                }
            },
        }
        i = i + 1;
    }
    proof {
        assert(entries@.take(entries@.len() as int) =~= entries@);
    }
    Ok(ids)
}

impl DirLoadable for crate::assets::Image {
    open spec fn selects(source: DirSource, entries: Seq<DirEntry>) -> Seq<Seq<char>> {
        ids_with_ext(entries, "png"@)
    }

    fn select_ids(source: &DirSource, id: &str) -> Result<Vec<String>, ResourceError> {
        select_ids_with_ext(source, id, "png")
    }
}

impl DirLoadable for crate::assets::DotVoxAsset {
    open spec fn selects(source: DirSource, entries: Seq<DirEntry>) -> Seq<Seq<char>> {
        ids_with_ext(entries, "vox"@)
    }

    fn select_ids(source: &DirSource, id: &str) -> Result<Vec<String>, ResourceError> {
        select_ids_with_ext(source, id, "vox")
    }
}

/// Whether the list holds an id reading `n`, mirroring `has_id`.
fn contains_id(ids: &Vec<String>, n: &String) -> (r: bool)
    ensures
        r == has_id(ids@, n@),
{
    let mut i: usize = 0;
    while i < ids.len()
        invariant
            i <= ids@.len(),
            forall|j: int| 0 <= j < i ==> (#[trigger] ids@[j])@ != n@,
        decreases ids@.len() - i,
    {
        if ids[i].eq(n) {
            return true;
        }
        i = i + 1;
    }
    false
}

/// `ids` with every repeated reading removed: each reading keeps its first
/// occurrence, in the input's order.
pub open spec fn dedup_first(ids: Seq<Seq<char>>) -> Seq<Seq<char>>
    decreases ids.len(),
{
    if ids.len() == 0 {
        Seq::empty()
    } else {
        let rest = dedup_first(ids.drop_last());
        if ids.drop_last().contains(ids.last()) {
            rest
        } else {
            rest.push(ids.last())
        }
    }
}

/// Drop redundant ids: each reading keeps its first occurrence, in the
/// input's order — the result reads exactly as `dedup_first` of the input,
/// so it is pairwise distinct and holds exactly the input's ids.
pub fn dedup_ids(ids: Vec<String>) -> (r: Vec<String>)
    ensures
        views_of(r@) == dedup_first(views_of(ids@)),
        ids_distinct(r@),
        forall|n: Seq<char>| has_id(r@, n) <==> has_id(ids@, n),
{
    let mut out: Vec<String> = Vec::new();
    let mut i: usize = 0;
    proof {
        assert(views_of(ids@.take(0)) =~= Seq::<Seq<char>>::empty());
        assert(views_of(out@) =~= dedup_first(views_of(ids@.take(0))));
    }
    while i < ids.len()
        invariant
            i <= ids@.len(),
            ids_distinct(out@),
            views_of(out@) == dedup_first(views_of(ids@.take(i as int))),
            forall|n: Seq<char>| #[trigger] has_id(out@, n) <==> has_id(ids@.take(i as int), n),
        decreases ids@.len() - i,
    {
        let ghost out0 = out@;
        let ghost prefix = views_of(ids@.take(i as int));
        let ghost cur = ids@[i as int]@;
        proof {
            assert(views_of(ids@.take(i + 1)).drop_last() =~= prefix);
            assert(views_of(ids@.take(i + 1)).last() == cur);
        }
        let present = contains_id(&out, &ids[i]);
        proof {
            if present {
                let k2 = choose|k2: int|
                    0 <= k2 < ids@.take(i as int).len() && (#[trigger] ids@.take(i as int)[k2])@
                        == cur;
                assert(prefix[k2] == cur);
                assert(prefix.contains(cur));
            } else {
                assert(!prefix.contains(cur)) by {
                    if prefix.contains(cur) {
                        let k2 = choose|k2: int| 0 <= k2 < prefix.len() && prefix[k2] == cur;
                        assert(ids@.take(i as int)[k2]@ == cur);
                        assert(has_id(ids@.take(i as int), cur));
                    }
                }
            }
        }
        if !present {
            out.push(ids[i].clone());
            proof {
                assert(out@.len() == out0.len() + 1);
                assert(forall|k: int| 0 <= k < out0.len() ==> #[trigger] out@[k] == out0[k]);
                assert(out@[out@.len() - 1]@ == ids@[i as int]@);
                assert forall|a: int, b: int|
                    0 <= a < b < out@.len() implies (#[trigger] out@[a])@ != (
                    #[trigger] out@[b])@ by {
                    if b < out@.len() - 1 {
                        assert(out@[a] == out0[a] && out@[b] == out0[b]);
                    } else {
                        assert(out@[a] == out0[a]);
                        assert(has_id(out0, out0[a]@));
                    }
                }
            }
        }
        proof {
            assert(views_of(out@) =~= dedup_first(views_of(ids@.take(i + 1))));
            assert forall|n: Seq<char>| #[trigger] has_id(out@, n) <==> has_id(
                ids@.take(i + 1),
                n,
            ) by {
                if has_id(out@, n) {
                    let k = choose|k: int| 0 <= k < out@.len() && (#[trigger] out@[k])@ == n;
                    if k < out0.len() {
                        assert(out@[k] == out0[k]);
                        assert(has_id(out0, n));
                        let k2 = choose|k2: int|
                            0 <= k2 < ids@.take(i as int).len() && (#[trigger] ids@.take(
                                i as int,
                            )[k2])@ == n;
                        assert(ids@.take(i + 1)[k2]@ == n);
                        assert(has_id(ids@.take(i + 1), n));
                    } else {
                        assert(out@[k]@ == ids@[i as int]@);
                        assert(ids@.take(i + 1)[i as int]@ == n);
                        assert(has_id(ids@.take(i + 1), n));
                    }
                }
                if has_id(ids@.take(i + 1), n) {
                    let k = choose|k: int|
                        0 <= k < ids@.take(i + 1).len() && (#[trigger] ids@.take(i + 1)[k])@ == n;
                    if k < i {
                        assert(ids@.take(i as int)[k]@ == n);
                        assert(has_id(ids@.take(i as int), n));
                        assert(has_id(out0, n));
                        let k3 = choose|k3: int|
                            0 <= k3 < out0.len() && (#[trigger] out0[k3])@ == n;
                        assert(out@[k3]@ == n);
                        assert(has_id(out@, n));
                    } else {
                        assert(ids@[i as int]@ == n);
                        if present {
                            assert(has_id(out0, n));
                            let k3 = choose|k3: int|
                                0 <= k3 < out0.len() && (#[trigger] out0[k3])@ == n;
                            assert(out@[k3]@ == n);
                            assert(has_id(out@, n));
                        } else {
                            assert(out@[out@.len() - 1]@ == n);
                            assert(has_id(out@, n));
                        }
                    }
                }
            }
        }
        i = i + 1;
    }
    proof {
        assert(ids@.take(ids@.len() as int) =~= ids@);
    }
    out
}

/// The specifier with a trailing ".*" removed.
pub open spec fn strip_star(s: Seq<char>) -> Seq<char> {
    if s.len() >= 2 && s[s.len() - 2] == '.' && s[s.len() - 1] == '*' {
        s.take(s.len() - 2)
    } else {
        s
    }
}

/// A handle on an asset directory: its id and the distinct ids of the
/// assets in it.
pub struct DirHandle {
    pub dir_id: String,
    pub asset_ids: Vec<String>,
}

impl DirHandle {
    /// Wrap a listed directory.
    pub fn new(dir_id: String, asset_ids: Vec<String>) -> (r: DirHandle)
        ensures
            r.dir_id == dir_id,
            r.asset_ids == asset_ids,
    {
        DirHandle { dir_id, asset_ids }
    }

    /// The id of the directory.
    pub fn id(&self) -> (r: &str)
        ensures
            r@ == self.dir_id@,
    {
        self.dir_id.as_str()
    }

    /// The ids of the assets in the directory.
    pub fn ids(&self) -> (r: &Vec<String>)
        ensures
            r == self.asset_ids,
    {
        &self.asset_ids
    }

    /// The ids whose assets are already in the cache; does no loading, and
    /// ids that are not cached are passed over.
    pub fn iter_cached(&self, store: &AssetStore) -> (r: Vec<String>)
        ensures
            views_of(r@) == views_of(self.asset_ids@).filter_map(cached_sel(store.data@)),
    {
        let ghost sel = cached_sel(store.data@);
        let mut out: Vec<String> = Vec::new();
        let mut i: usize = 0;
        proof {
            assert(views_of(self.asset_ids@.take(0)) =~= Seq::<Seq<char>>::empty());
            assert(views_of(out@) =~= views_of(self.asset_ids@.take(0)).filter_map(sel));
        }
        while i < self.asset_ids.len()
            invariant
                i <= self.asset_ids@.len(),
                sel == cached_sel(store.data@),
                views_of(out@) == views_of(self.asset_ids@.take(i as int)).filter_map(sel),
            decreases self.asset_ids@.len() - i,
        {
            proof {
                assert(views_of(self.asset_ids@.take(i + 1)).drop_last() =~= views_of(
                    self.asset_ids@.take(i as int),
                ));
                assert(views_of(self.asset_ids@.take(i + 1)).last() == self.asset_ids@[i as int]@);
            }
            match store.get_raw(&self.asset_ids[i]) {
                Some(_) => {
                    out.push(self.asset_ids[i].clone());
                    proof {
                        assert(sel(self.asset_ids@[i as int]@) == Some(
                            self.asset_ids@[i as int]@,
                        ));
                        assert(views_of(out@) =~= views_of(
                            self.asset_ids@.take(i + 1),
                        ).filter_map(sel));
                    }
                },
                None => {
                    proof {
                        assert(sel(self.asset_ids@[i as int]@) is None);
                        assert(views_of(out@) =~= views_of(
                            self.asset_ids@.take(i + 1),
                        ).filter_map(sel));
                    }
                },
            }
            i = i + 1;
        }
        proof {
            assert(self.asset_ids@.take(self.asset_ids@.len() as int) =~= self.asset_ids@);
        }
        out
    }

    /// Look every asset in the directory up in the cache, in order: the
    /// cached bytes, or the error for the ids that are not cached.
    pub fn iter(&self, store: &AssetStore) -> (r: Vec<Result<Vec<u8>, ResourceError>>)
        ensures
            r@.len() == self.asset_ids@.len(),
            forall|k: int|
                0 <= k < r@.len() ==> match lookup_bytes(
                    store.data@,
                    (#[trigger] self.asset_ids@[k])@,
                ) {
                    Some(bytes) => r@[k] matches Ok(v) && v@ == bytes,
                    None => r@[k] is Err,
                },
    {
        let mut out: Vec<Result<Vec<u8>, ResourceError>> = Vec::new();
        let mut i: usize = 0;
        while i < self.asset_ids.len()
            invariant
                i <= self.asset_ids@.len(),
                out@.len() == i,
                forall|k: int|
                    0 <= k < i ==> match lookup_bytes(
                        store.data@,
                        (#[trigger] self.asset_ids@[k])@,
                    ) {
                        Some(bytes) => out@[k] matches Ok(v) && v@ == bytes,
                        None => out@[k] is Err,
                    },
            decreases self.asset_ids@.len() - i,
        {
            match store.get_raw(&self.asset_ids[i]) {
                Some(bytes) => {
                    out.push(Ok(bytes));
                },
                None => {
                    out.push(Err(ResourceError::NotExists(self.asset_ids[i].clone())));
                },
            }
            i = i + 1;
        }
        out
    }
}

/// List a directory and wrap the ids of the assets of type `T` in it: what
/// `T` selects, in listing order, with repeated ids dropped at their later
/// occurrences.  A trailing ".*" on the specifier is accepted and stripped.
/// An unreadable directory is the one error, reported with its id.
pub fn load_dir<T: DirLoadable>(source: &DirSource, specifier: &str) -> (r: Result<
    DirHandle,
    ResourceError,
>)
    ensures
        ({
            let dir = strip_star(specifier@);
            match listing_of(source.listings@, dir) {
                Some(entries) => r matches Ok(h) && h.dir_id@ == dir && views_of(h.asset_ids@)
                    == dedup_first(T::selects(*source, entries)) && ids_distinct(h.asset_ids@),
                None => r matches Err(e) && (e matches ResourceError::NotExists(n) && n@ == dir),
            }
        }),
{
    let n = specifier.unicode_len();
    let stripped: &str = if n >= 2 && specifier.get_char(n - 2) == '.' && specifier.get_char(n - 1)
        == '*' {
        specifier.substring_char(0, n - 2)
    } else {
        specifier
    };
    let ids = match T::select_ids(source, stripped) {
        Ok(ids) => ids,
        Err(e) => {
            return Err(e);
        },
    };
    let ids = dedup_ids(ids);
    Ok(DirHandle::new(String::from_str(stripped), ids))
}

} // verus!
