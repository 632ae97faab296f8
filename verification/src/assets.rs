//! The asset cache: raw asset bytes keyed by name, directory markers, and
//! the typed loaders for image and voxel-model assets.
//!
//! The cache itself is plain data handed in by the embedder (bytes arrive
//! from outside, through whatever channel the platform offers); the loaders
//! turn cached bytes into typed assets through the image and voxel-format
//! parsers.
use vstd::prelude::*;
use vstd::string::StringExecFns;
use std::sync::Arc;

verus! {

/// Why a cache lookup failed.
#[derive(Debug)]
pub enum ResourceError {
    /// The backing map could not be read.
    GetMapError,
    /// No entry under this full name.
    NotExists(String),
}

/// Why a typed asset failed to load from bytes.
#[derive(Debug)]
pub enum AssetError {
    /// The file extension names no known image format.
    UnknownFormat(String),
    /// The bytes do not decode in the claimed format.
    Decode,
}

/// The first value stored under `name`, if any; insertion keeps names
/// unique, so it is the only one.
pub open spec fn lookup_bytes(entries: Seq<(String, Vec<u8>)>, name: Seq<char>) -> Option<Seq<u8>>
    decreases entries.len(),
{
    if entries.len() == 0 {
        None
    } else if entries[0].0@ == name {
        Some(entries[0].1@)
    } else {
        lookup_bytes(entries.skip(1), name)
    }
}

/// Whether `name` is marked as a cached directory.
pub open spec fn has_dir(dirs: Seq<String>, name: Seq<char>) -> bool {
    exists|i: int| 0 <= i < dirs.len() && (#[trigger] dirs[i])@ == name
}

/// The asset cache: raw bytes by full name, and the set of names marked as
/// directories.
pub struct AssetStore {
    pub data: Vec<(String, Vec<u8>)>,
    pub dirs: Vec<String>,
}

impl AssetStore {
    /// An empty cache.
    pub fn new() -> (r: AssetStore)
        ensures
            r.data@.len() == 0,
            r.dirs@.len() == 0,
    {
        AssetStore { data: Vec::new(), dirs: Vec::new() }
    }

    /// Mark `name` as a cached directory.
    pub fn set_cache_dir(&mut self, name: &str)
        ensures
            has_dir(final(self).dirs@, name@),
            final(self).data@ == old(self).data@,
            forall|n: Seq<char>|
                has_dir(final(self).dirs@, n) <==> (n == name@ || has_dir(old(self).dirs@, n)),
    {
        let owned = String::from_str(name);
        self.dirs.push(owned);
        proof {
            let dirs = self.dirs@;
            assert(dirs.last()@ == name@);
            assert forall|n: Seq<char>| has_dir(dirs, n) <==> (n == name@ || has_dir(
                old(self).dirs@,
                n,
            )) by {
                if has_dir(dirs, n) {
                    let i = choose|i: int| 0 <= i < dirs.len() && (#[trigger] dirs[i])@ == n;
                    if i < dirs.len() - 1 {
                        assert(old(self).dirs@[i]@ == n);
                    }
                }
                if n == name@ {
                    assert(dirs[dirs.len() - 1]@ == n);
                }
                if has_dir(old(self).dirs@, n) {
                    let i = choose|i: int|
                        0 <= i < old(self).dirs@.len() && (#[trigger] old(self).dirs@[i])@ == n;
                    assert(dirs[i]@ == n);
                }
            }
        }
    }

    /// Store `data` under `name`, replacing any previous value.
    pub fn set_cache_data(&mut self, name: &str, data: &[u8])
        ensures
            lookup_bytes(final(self).data@, name@) == Some(data@),
            final(self).dirs@ == old(self).dirs@,
            forall|n: Seq<char>|
                n != name@ ==> lookup_bytes(final(self).data@, n) == lookup_bytes(
                    old(self).data@,
                    n,
                ),
    {
        let owned = String::from_str(name);
        let bytes = vstd::slice::slice_to_vec(data);
        let ghost entries0 = self.data@;
        match self.find_entry(&owned) {
            Some(i) => {
                self.data[i] = (owned, bytes);
                proof {
                    lemma_lookup_after_update(entries0, self.data@, i as int, name@);
                }
            },
            None => {
                proof {
                    lemma_lookup_none_keys(entries0, name@);
                }
                self.data.push((owned, bytes));
                proof {
                    lemma_lookup_after_push(entries0, self.data@, name@);
                }
            },
        }
    }

    /// Index of the first entry stored under `name`, mirroring
    /// `lookup_bytes`.
    fn find_entry(&self, name: &String) -> (r: Option<usize>)
        ensures
            match r {
                Some(i) => i < self.data@.len() && self.data@[i as int].0@ == name@ && (forall|
                    j: int,
                |
                    0 <= j < i ==> (#[trigger] self.data@[j]).0@ != name@) && lookup_bytes(
                    self.data@,
                    name@,
                ) == Some(self.data@[i as int].1@),
                None => lookup_bytes(self.data@, name@) is None,
            },
    {
        let mut i: usize = 0;
        proof {
            assert(self.data@.skip(0) =~= self.data@);
        }
        while i < self.data.len()
            invariant
                i <= self.data@.len(),
                forall|j: int| 0 <= j < i ==> (#[trigger] self.data@[j]).0@ != name@,
                lookup_bytes(self.data@, name@) == lookup_bytes(
                    self.data@.skip(i as int),
                    name@,
                ),
            decreases self.data@.len() - i,
        {
            proof {
                assert(self.data@.skip(i as int)[0] == self.data@[i as int]);
                assert(self.data@.skip(i as int).skip(1) =~= self.data@.skip(i + 1));
            }
            if self.data[i].0.eq(name) {
                return Some(i);
            }
            i = i + 1;
        }
        proof {
            assert(self.data@.skip(i as int).len() == 0);
        }
        None
    }

    /// A copy of the bytes cached under the full `name`, if any.
    pub fn get_raw(&self, name: &String) -> (r: Option<Vec<u8>>)
        ensures
            match lookup_bytes(self.data@, name@) {
                Some(bytes) => r matches Some(v) && v@ == bytes,
                None => r is None,
            },
    {
        match self.find_entry(name) {
            None => None,
            Some(i) => Some(self.copy_bytes(i)),
        }
    }

    /// A fresh vector holding the bytes of entry `i`.
    fn copy_bytes(&self, i: usize) -> (r: Vec<u8>)
        requires
            i < self.data@.len(),
        ensures
            r@ == self.data@[i as int].1@,
    {
        let bytes = &self.data[i].1;
        let len = bytes.len();
        let mut ret: Vec<u8> = Vec::new();
        let mut index: usize = 0;
        while index < len
            invariant
                index <= len,
                len == bytes@.len(),
                bytes@ == self.data@[i as int].1@,
                ret@ == bytes@.take(index as int),
            decreases len - index,
        {
            ret.push(bytes[index]);
            proof {
                assert(ret@ =~= bytes@.take(index + 1));
            }
            index = index + 1;
        }
        proof {
            assert(bytes@.take(len as int) =~= bytes@);
        }
        ret
    }

    /// Fetch a copy of the bytes cached under `id` + "." + `ext`.
    ///
    /// Succeeds with exactly the cached bytes when the full name is
    /// present; fails with `NotExists` carrying the full name when it is
    /// not.  (`GetMapError` belongs to a shared-map backend; this owned
    /// cache never produces it.)
    pub fn get_cache_data(&self, id: &str, ext: &str) -> (r: Result<Vec<u8>, ResourceError>)
        ensures
            ({
                let full = id@ + "."@ + ext@;
                match lookup_bytes(self.data@, full) {
                    Some(bytes) => r matches Ok(v) && v@ == bytes,
                    None => r matches Err(e) && (e matches ResourceError::NotExists(n) && n@
                        == full),
                }
            }),
    {
        let mut name = String::from_str(id);
        name.append(".");
        name.append(ext);
        match self.find_entry(&name) {
            None => Err(ResourceError::NotExists(name)),
            Some(i) => Ok(self.copy_bytes(i)),
        }
    }
}

/// Replacing the first entry that carried `name` (no earlier entry does)
/// rebinds `name` and leaves every other name alone.
pub proof fn lemma_lookup_after_update(
    before: Seq<(String, Vec<u8>)>,
    after: Seq<(String, Vec<u8>)>,
    i: int,
    name: Seq<char>,
)
    requires
        0 <= i < before.len(),
        after.len() == before.len(),
        forall|j: int| 0 <= j < before.len() && j != i ==> #[trigger] after[j] == before[j],
        forall|j: int| 0 <= j < i ==> (#[trigger] before[j]).0@ != name,
        before[i].0@ == name,
        after[i].0@ == name,
    ensures
        lookup_bytes(after, name) == Some(after[i].1@),
        forall|n: Seq<char>|
            n != name ==> lookup_bytes(after, n) == lookup_bytes(before, n),
    decreases i,
{
    if i == 0 {
        assert forall|n: Seq<char>| n != name implies lookup_bytes(after, n) == lookup_bytes(
            before,
            n,
        ) by {
            assert(before[0].0@ == name);
            assert(after[0].0@ == name);
            lemma_lookup_skip_eq(before, after, n);
        }
    } else {
        assert(before.skip(1)[i - 1] == before[i - 1 + 1]);
        assert(forall|j: int|
            0 <= j < before.skip(1).len() && j != i - 1 ==> #[trigger] after.skip(1)[j]
                == before.skip(1)[j]);
        assert(forall|j: int|
            0 <= j < i - 1 ==> (#[trigger] before.skip(1)[j]).0@ != name);
        assert(after.skip(1)[i - 1] == after[i]);
        lemma_lookup_after_update(before.skip(1), after.skip(1), i - 1, name);
        assert(after[0] == before[0]);
        assert(before[0].0@ != name);
        assert(lookup_bytes(after, name) == Some(after[i].1@));
        assert forall|n: Seq<char>| n != name implies lookup_bytes(after, n) == lookup_bytes(
            before,
            n,
        ) by {
            assert(lookup_bytes(after.skip(1), n) == lookup_bytes(before.skip(1), n));
        }
    }
}

/// Two lists equal beyond their (equal) heads look up alike.
proof fn lemma_lookup_skip_eq(
    before: Seq<(String, Vec<u8>)>,
    after: Seq<(String, Vec<u8>)>,
    n: Seq<char>,
)
    requires
        before.len() == after.len(),
        before.len() > 0,
        forall|j: int| 1 <= j < before.len() ==> #[trigger] after[j] == before[j],
    ensures
        lookup_bytes(after.skip(1), n) == lookup_bytes(before.skip(1), n),
{
    assert(after.skip(1) =~= before.skip(1));
}

/// Appending an entry for an absent name binds it and leaves every other
/// name alone.
pub proof fn lemma_lookup_after_push(
    before: Seq<(String, Vec<u8>)>,
    after: Seq<(String, Vec<u8>)>,
    name: Seq<char>,
)
    requires
        after.len() == before.len() + 1,
        forall|j: int| 0 <= j < before.len() ==> #[trigger] after[j] == before[j],
        forall|j: int| 0 <= j < before.len() ==> (#[trigger] before[j]).0@ != name,
        after.last().0@ == name,
    ensures
        lookup_bytes(after, name) == Some(after.last().1@),
        forall|n: Seq<char>|
            n != name ==> lookup_bytes(after, n) == lookup_bytes(before, n),
    decreases before.len(),
{
    if before.len() == 0 {
        assert forall|n: Seq<char>| n != name implies lookup_bytes(after, n) == lookup_bytes(
            before,
            n,
        ) by {
            assert(after[0].0@ == name);
            assert(after.skip(1) =~= Seq::<(String, Vec<u8>)>::empty());
            assert(lookup_bytes(Seq::<(String, Vec<u8>)>::empty(), n) is None);
        }
    } else {
        assert(after[0] == before[0]);
        assert(forall|j: int|
            0 <= j < before.skip(1).len() ==> #[trigger] after.skip(1)[j] == before.skip(1)[j]);
        assert(forall|j: int|
            0 <= j < before.skip(1).len() ==> (#[trigger] before.skip(1)[j]).0@ != name);
        assert(after.skip(1).last() == after.last());
        assert(after.skip(1).len() == before.skip(1).len() + 1);
        lemma_lookup_after_push(before.skip(1), after.skip(1), name);
        assert(before[0].0@ != name);
        assert(lookup_bytes(after, name) == Some(after.last().1@));
        assert forall|n: Seq<char>| n != name implies lookup_bytes(after, n) == lookup_bytes(
            before,
            n,
        ) by {
            assert(lookup_bytes(after.skip(1), n) == lookup_bytes(before.skip(1), n));
        }
    }
}

#[verifier::external_type_specification]
#[verifier::external_body]
pub struct ExImageFormat(image::ImageFormat);

#[verifier::external_type_specification]
#[verifier::external_body]
pub struct ExDynamicImage(image::DynamicImage);

#[verifier::external_type_specification]
#[verifier::external_body]
pub struct ExImageError(image::ImageError);

#[verifier::external_type_specification]
#[verifier::external_body]
pub struct ExDotVoxData(dot_vox::DotVoxData);

/// `c` reads as the ASCII letter `lower` after ASCII lowercasing: it is
/// that letter, or its uppercase form.
pub open spec fn char_lowers_to(c: char, lower: char) -> bool {
    c == lower || (65 <= c as u32 <= 90 && c as u32 + 32 == lower as u32)
}

/// `s` reads as `lower` after ASCII lowercasing; `lower` is given all
/// lowercase.
pub open spec fn lowers_to(s: Seq<char>, lower: Seq<char>) -> bool {
    s.len() == lower.len() && forall|i: int|
        0 <= i < s.len() ==> char_lowers_to(#[trigger] s[i], lower[i])
}

/// Whether an extension names an image format the image parser knows: its
/// extension table, compared after ASCII lowercasing.
pub open spec fn known_image_format(ext: Seq<char>) -> bool {
    ||| lowers_to(ext, "avif"@)
    ||| lowers_to(ext, "jpg"@)
    ||| lowers_to(ext, "jpeg"@)
    ||| lowers_to(ext, "jfif"@)
    ||| lowers_to(ext, "png"@)
    ||| lowers_to(ext, "apng"@)
    ||| lowers_to(ext, "gif"@)
    ||| lowers_to(ext, "webp"@)
    ||| lowers_to(ext, "tif"@)
    ||| lowers_to(ext, "tiff"@)
    ||| lowers_to(ext, "tga"@)
    ||| lowers_to(ext, "dds"@)
    ||| lowers_to(ext, "bmp"@)
    ||| lowers_to(ext, "ico"@)
    ||| lowers_to(ext, "hdr"@)
    ||| lowers_to(ext, "exr"@)
    ||| lowers_to(ext, "pbm"@)
    ||| lowers_to(ext, "pam"@)
    ||| lowers_to(ext, "ppm"@)
    ||| lowers_to(ext, "pgm"@)
    ||| lowers_to(ext, "pnm"@)
    ||| lowers_to(ext, "ff"@)
    ||| lowers_to(ext, "qoi"@)
}

/// Relies on image::ImageFormat::from_extension: a pure, total match on the
/// ASCII-lowercased extension; `known_image_format` restates its table.
#[verifier::external_body]
fn image_format_from_extension(ext: &str) -> (r: Option<image::ImageFormat>)
    ensures
        r is Some <==> known_image_format(ext@),
{
    image::ImageFormat::from_extension(ext)
}

/// Relies on image::load_from_memory_with_format: decodes the bytes in the
/// given format, or reports why not.  Whether it succeeds is the decoder's
/// decision; nothing is assumed of either outcome.
#[verifier::external_body]
fn image_load_from_memory(content: &[u8], format: image::ImageFormat) -> Result<
    image::DynamicImage,
    image::ImageError,
> {
    image::load_from_memory_with_format(content, format)
}

/// Whether the voxel-format parser accepts these bytes.
pub uninterp spec fn vox_parses(content: Seq<u8>) -> bool;

/// Relies on dot_vox::load_bytes: a pure parser, so success depends on the
/// bytes alone.
#[verifier::external_body]
fn vox_load_bytes(content: &[u8]) -> (r: Option<dot_vox::DotVoxData>)
    ensures
        r is Some <==> vox_parses(content@),
{
    dot_vox::load_bytes(content).ok()
}

/// Relies on Arc::clone: the returned handle is the same image.
#[verifier::external_body]
fn arc_clone_image(a: &Arc<image::DynamicImage>) -> (r: Arc<image::DynamicImage>)
    ensures
        r == *a,
{
    Arc::clone(a)
}

/// A decoded image asset.
pub struct Image(pub Arc<image::DynamicImage>);

impl Image {
    /// A shared handle on the decoded image.
    pub fn to_image(&self) -> (r: Arc<image::DynamicImage>)
        ensures
            r == self.0,
    {
        arc_clone_image(&self.0)
    }
}

/// Loads `Image` assets from raw bytes.
pub struct ImageLoader;

impl ImageLoader {
    /// Decode an image from its bytes and its file extension.
    ///
    /// An extension naming no known image format is rejected with
    /// `UnknownFormat` carrying the extension; otherwise the bytes go to the
    /// decoder, whose verdict decides between the image and `Decode`.
    pub fn load(content: &[u8], ext: &str) -> (r: Result<Image, AssetError>)
        ensures
            !known_image_format(ext@) ==> (r matches Err(e) && (e
                matches AssetError::UnknownFormat(x) && x@ == ext@)),
            r is Ok ==> known_image_format(ext@),
    {
        let format = match image_format_from_extension(ext) {
            Some(f) => f,
            None => {
                return Err(AssetError::UnknownFormat(String::from_str(ext)));
            },
        };
        match image_load_from_memory(content, format) {
            Ok(img) => Ok(Image(Arc::new(img))),
            Err(_) => Err(AssetError::Decode),
        }
    }
}

/// A parsed voxel-model asset.
pub struct DotVoxAsset(pub dot_vox::DotVoxData);

/// Loads `DotVoxAsset` assets from raw bytes.
pub struct DotVoxLoader;

impl DotVoxLoader {
    /// Parse a voxel model from its bytes; the extension plays no part.
    ///
    /// Succeeds exactly when the voxel parser accepts the bytes.
    pub fn load(content: &[u8], _ext: &str) -> (r: Result<DotVoxAsset, AssetError>)
        ensures
            r is Ok <==> vox_parses(content@),
            !vox_parses(content@) ==> r == Err::<DotVoxAsset, AssetError>(AssetError::Decode),
    {
        match vox_load_bytes(content) {
            Some(data) => Ok(DotVoxAsset(data)),
            None => Err(AssetError::Decode),
        }
    }
}

/// An absent name is carried by no entry.
pub proof fn lemma_lookup_none_keys(entries: Seq<(String, Vec<u8>)>, name: Seq<char>)
    requires
        lookup_bytes(entries, name) is None,
    ensures
        forall|j: int| 0 <= j < entries.len() ==> (#[trigger] entries[j]).0@ != name,
    decreases entries.len(),
{
    if entries.len() != 0 {
        lemma_lookup_none_keys(entries.skip(1), name);
        assert forall|j: int| 0 <= j < entries.len() implies (#[trigger] entries[j]).0@
            != name by {
            if j > 0 {
                assert(entries[j] == entries.skip(1)[j - 1]);
            }
        }
    }
}

} // verus!
