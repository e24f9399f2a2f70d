//! The on-disk layout of the comic library and the decisions of its operations.
//! The caller performs the file-system work that these functions plan.
use vstd::prelude::*;
use std::path::Path;
use crate::data_uri::{base64_of, decode_base64, payload_of};
use crate::error::AppError;
use crate::text::{
    copy_range, find_chars, from_chars, lower_of, lowercase, matches_at, push_all, starts_with,
    starts_with_chars, to_chars,
};

verus! {

/// What `Path::file_stem` gives for a path: the file name without its last extension.
pub uninterp spec fn file_stem_of(p: Seq<char>) -> Option<Seq<char>>;

/// What `Path::file_name` gives for a path: its last component.
pub uninterp spec fn file_name_of(p: Seq<char>) -> Option<Seq<char>>;

/// What `Path::extension` gives for a path: the text after the last dot of the file name.
pub uninterp spec fn extension_of(p: Seq<char>) -> Option<Seq<char>>;

/// Relies on `Path::file_stem`; a stem of a `&str` path is always valid UTF-8.
#[verifier::external_body]
fn path_file_stem(p: &str) -> (r: Option<String>)
    ensures
        match r {
            Some(s) => file_stem_of(p@) == Some(s@),
            None => file_stem_of(p@) is None,
        },
{
    Path::new(p).file_stem().and_then(|s| s.to_str()).map(|s| s.to_string())
}

/// Relies on `Path::file_name`; a component of a `&str` path is always valid UTF-8.
#[verifier::external_body]
fn path_file_name(p: &str) -> (r: Option<String>)
    ensures
        match r {
            Some(s) => file_name_of(p@) == Some(s@),
            None => file_name_of(p@) is None,
        },
{
    Path::new(p).file_name().and_then(|s| s.to_str()).map(|s| s.to_string())
}

/// Relies on `Path::extension`; an extension of a `&str` path is always valid UTF-8.
#[verifier::external_body]
fn path_extension(p: &str) -> (r: Option<String>)
    ensures
        match r {
            Some(s) => extension_of(p@) == Some(s@),
            None => extension_of(p@) is None,
        },
{
    Path::new(p).extension().and_then(|s| s.to_str()).map(|s| s.to_string())
}

/// `b` inside directory `a`.
pub open spec fn join_path(a: Seq<char>, b: Seq<char>) -> Seq<char> {
    a + seq!['/'] + b
}

/// An extension of a file that may be ingested, compared without regard to case.
pub open spec fn is_accepted_extension(ext: Option<Seq<char>>) -> bool {
    match ext {
        Some(e) => {
            let l = lower_of(e);
            l == "cbz"@ || l == "cbr"@ || l == "zip"@ || l == "rar"@
        },
        None => false,
    }
}

/// Where an ingested archive goes.
pub struct AddFilePlan {
    /// The title folder, created if absent.
    pub folder: String,
    /// The path of the copy inside the title folder.
    pub destination: String,
}

/// A cover image to be written into a title folder.
pub struct CoverFile {
    pub path: String,
    pub bytes: Vec<u8>,
}

/// A file of the library directory, or a directory with the files it holds.
pub struct LibraryEntry {
    pub name: String,
    pub is_file: bool,
    pub is_dir: bool,
    pub children: Vec<LibraryChild>,
}

/// A file inside a title folder.
pub struct LibraryChild {
    pub name: String,
    pub is_file: bool,
}

/// Where the metadata of a title is to be read from.
pub enum MetadataSource {
    /// The stored `metadata.json` at this path.
    SideFile(String),
    /// The archive at this path, parsed anew.
    Archive(String),
}

/// A stored cover file that may exist, with the type of image it holds.
pub struct CoverCandidate {
    pub path: String,
    pub mime: String,
}

/// Owns the library directory: one folder per title, named by its title key.
pub struct FileManager {
    pub directory: String,
}

/// A file that the listing shows: a file whose extension is exactly `cbz`.
pub open spec fn is_listed(name: Seq<char>, is_file: bool) -> bool {
    is_file && extension_of(name) == Some("cbz"@)
}

pub open spec fn listed_children(cs: Seq<LibraryChild>) -> Seq<Seq<char>>
    decreases cs.len(),
{
    if cs.len() == 0 {
        Seq::empty()
    } else {
        let c = cs.last();
        listed_children(cs.drop_last()) + if is_listed(c.name@, c.is_file) {
            seq![c.name@]
        } else {
            Seq::empty()
        }
    }
}

pub open spec fn entry_listing(e: LibraryEntry) -> Seq<Seq<char>> {
    if is_listed(e.name@, e.is_file) {
        seq![e.name@]
    } else if e.is_dir {
        listed_children(e.children@)
    } else {
        Seq::empty()
    }
}

/// The names that a listing of the library directory shows, in the order given.
pub open spec fn listed_names(es: Seq<LibraryEntry>) -> Seq<Seq<char>>
    decreases es.len(),
{
    if es.len() == 0 {
        Seq::empty()
    } else {
        listed_names(es.drop_last()) + entry_listing(es.last())
    }
}

/// The file extension of a cover written from a data URI, by its declared type.
pub open spec fn cover_extension(uri: Seq<char>) -> Option<Seq<char>> {
    if starts_with(uri, "data:image/jpeg"@) {
        Some("jpg"@)
    } else if starts_with(uri, "data:image/png"@) {
        Some("png"@)
    } else {
        None
    }
}

/// The extensions probed for a stored cover, in order.
pub open spec fn cover_probe_ext(i: int) -> Seq<char> {
    if i == 0 {
        "jpg"@
    } else if i == 1 {
        "jpeg"@
    } else if i == 2 {
        "png"@
    } else {
        "webp"@
    }
}

/// The image type of a stored cover with the `i`-th probed extension.
pub open spec fn cover_probe_mime(i: int) -> Seq<char> {
    if i == 2 {
        "image/png"@
    } else if i == 3 {
        "image/webp"@
    } else {
        "image/jpeg"@
    }
}

pub fn chars_equal(a: &Vec<char>, b: &Vec<char>) -> (r: bool)
    ensures
        r == (a@ == b@),
{
    if a.len() != b.len() {
        return false;
    }
    let r = matches_at(a, b, 0);
    assert(a@.subrange(0, b.len() as int) =~= a@);
    r
}

fn join(a: &str, b: &str) -> (r: String)
    ensures
        r@ == join_path(a@, b@),
{
    let mut out = to_chars(a);
    out.push('/');
    push_all(&mut out, &to_chars(b));
    from_chars(out.as_slice())
}

fn is_accepted(ext: &Option<String>) -> (r: bool)
    ensures
        r == is_accepted_extension(match ext {
            Some(e) => Some(e@),
            None => None,
        }),
{
    match ext {
        None => false,
        Some(e) => {
            let l = to_chars(lowercase(e.as_str()).as_str());
            chars_equal(&l, &to_chars("cbz")) || chars_equal(&l, &to_chars("cbr")) || chars_equal(
                &l,
                &to_chars("zip"),
            ) || chars_equal(&l, &to_chars("rar"))
        },
    }
}

/// Whether the file `name` is one that the listing shows.
fn is_listed_file(name: &str, is_file: bool) -> (r: bool)
    ensures
        r == is_listed(name@, is_file),
{
    if !is_file {
        return false;
    }
    match path_extension(name) {
        Some(e) => chars_equal(&to_chars(e.as_str()), &to_chars("cbz")),
        None => false,
    }
}

/// The position of the first `true`.
pub fn first_present(present: &Vec<bool>) -> (r: Option<usize>)
    ensures
        match r {
            Some(i) => i < present.len() && present@[i as int] && forall|j: int|
                0 <= j < i ==> !present@[j],
            None => forall|j: int| 0 <= j < present.len() ==> !present@[j],
        },
{
    let mut i: usize = 0;
    while i < present.len()
        invariant
            i <= present.len(),
            forall|j: int| 0 <= j < i ==> !present@[j],
        decreases present.len() - i,
    {
        if present[i] {
            return Some(i);
        }
        i += 1;
    }
    None
}

impl FileManager {
    /// A library rooted at `directory`.
    pub fn new(directory: String) -> (r: Self)
        ensures
            r.directory@ == directory@,
    {
        FileManager { directory }
    }

    /// The title key of a file name: its stem.
    pub fn title_key(name: &str) -> (r: Result<String, AppError>)
        ensures
            match r {
                Ok(k) => file_stem_of(name@) == Some(k@),
                Err(e) => e == AppError::InvalidName && file_stem_of(name@) is None,
            },
    {
        match path_file_stem(name) {
            Some(k) => Ok(k),
            None => Err(AppError::InvalidName),
        }
    }

    /// The folder of the title that `name` belongs to: `<directory>/<stem>`.
    pub fn title_folder(&self, name: &str) -> (r: Result<String, AppError>)
        ensures
            match r {
                Ok(p) => file_stem_of(name@) is Some && p@ == join_path(
                    self.directory@,
                    file_stem_of(name@)->0,
                ),
                Err(e) => e == AppError::InvalidName && file_stem_of(name@) is None,
            },
    {
        let key = Self::title_key(name)?;
        Ok(join(self.directory.as_str(), key.as_str()))
    }

    /// Where the archive named `file_name` is stored: `<directory>/<stem>/<file_name>`.
    pub fn get_full_path(&self, file_name: &str) -> (r: Result<String, AppError>)
        ensures
            match r {
                Ok(p) => file_stem_of(file_name@) is Some && p@ == join_path(
                    join_path(self.directory@, file_stem_of(file_name@)->0),
                    file_name@,
                ),
                Err(e) => e == AppError::InvalidName && file_stem_of(file_name@) is None,
            },
    {
        let folder = self.title_folder(file_name)?;
        Ok(join(folder.as_str(), file_name))
    }

    /// The stored metadata of the title that `name` belongs to:
    /// `<directory>/<stem>/metadata.json`.
    pub fn metadata_file_path(&self, name: &str) -> (r: Result<String, AppError>)
        ensures
            match r {
                Ok(p) => file_stem_of(name@) is Some && p@ == join_path(
                    join_path(self.directory@, file_stem_of(name@)->0),
                    "metadata.json"@,
                ),
                Err(e) => e == AppError::InvalidName && file_stem_of(name@) is None,
            },
    {
        let folder = self.title_folder(name)?;
        Ok(join(folder.as_str(), "metadata.json"))
    }

    /// Checks a source file for ingestion and says where its copy goes. Only the
    /// extensions `cbz`, `cbr`, `zip` and `rar` are accepted, in any case.
    pub fn add_file(&self, source_path: &str) -> (r: Result<AddFilePlan, AppError>)
        ensures
            !is_accepted_extension(extension_of(source_path@)) ==> r is Err && r->Err_0
                == AppError::UnsupportedFormat,
            is_accepted_extension(extension_of(source_path@)) ==> match r {
                Ok(plan) => {
                    &&& file_stem_of(source_path@) is Some
                    &&& file_name_of(source_path@) is Some
                    &&& plan.folder@ == join_path(self.directory@, file_stem_of(source_path@)->0)
                    &&& plan.destination@ == join_path(plan.folder@, file_name_of(source_path@)->0)
                },
                Err(e) => e == AppError::InvalidName && (file_stem_of(source_path@) is None
                    || file_name_of(source_path@) is None),
            },
    {
        let ext = path_extension(source_path);
        if !is_accepted(&ext) {
            return Err(AppError::UnsupportedFormat);
        }
        let stem = match path_file_stem(source_path) {
            Some(s) => s,
            None => return Err(AppError::InvalidName),
        };
        let name = match path_file_name(source_path) {
            Some(n) => n,
            None => return Err(AppError::InvalidName),
        };
        let folder = join(self.directory.as_str(), stem.as_str());
        let destination = join(folder.as_str(), name.as_str());
        Ok(AddFilePlan { folder, destination })
    }

    /// Decodes the cover of a title, given as a data URI, into the file
    /// `<folder_path>/cover.<jpg|png>`.
    pub fn copy_cover_image(&self, folder_path: &str, cover_image_data: &str) -> (r: Result<
        CoverFile,
        AppError,
    >)
        ensures
            match payload_of(cover_image_data@) {
                None => r is Err && r->Err_0 == AppError::Serialization,
                Some(pl) => if !exists|v: Seq<u8>| base64_of(v) == pl {
                    r is Err && r->Err_0 == AppError::Serialization
                } else {
                    match cover_extension(cover_image_data@) {
                        None => r is Err && r->Err_0 == AppError::UnsupportedFormat,
                        Some(ext) => {
                            &&& r is Ok
                            &&& base64_of(r->Ok_0.bytes@) == pl
                            &&& forall|v: Seq<u8>| #[trigger] base64_of(v) == pl ==> r->Ok_0.bytes@ == v
                            &&& r->Ok_0.path@ == join_path(folder_path@, "cover."@ + ext)
                        },
                    }
                },
            },
    {
        let uri = to_chars(cover_image_data);
        let comma: Vec<char> = vec![','];
        assert(comma@ =~= seq![',']);
        let c = match find_chars(&uri, &comma) {
            Some(c) => c,
            None => return Err(AppError::Serialization),
        };
        assert(c + 1 <= uri.len());
        let rest = copy_range(&uri, c + 1, uri.len());
        let segment = match find_chars(&rest, &comma) {
            Some(d) => copy_range(&rest, 0, d),
            None => rest,
        };
        let payload = from_chars(segment.as_slice());
        assert(payload_of(cover_image_data@) == Some(payload@));
        let bytes = match decode_base64(payload.as_str()) {
            Some(b) => b,
            None => return Err(AppError::Serialization),
        };
        let ext = if starts_with_chars(&uri, &to_chars("data:image/jpeg")) {
            "jpg"
        } else if starts_with_chars(&uri, &to_chars("data:image/png")) {
            "png"
        } else {
            return Err(AppError::UnsupportedFormat);
        };
        let mut file_name = to_chars("cover.");
        push_all(&mut file_name, &to_chars(ext));
        let path = join(folder_path, from_chars(file_name.as_slice()).as_str());
        Ok(CoverFile { path, bytes })
    }

    /// The archives of the library: each file of the directory whose extension is
    /// exactly `cbz`, and each such file one level down in a title folder.
    pub fn list_files(&self, entries: &Vec<LibraryEntry>) -> (r: Vec<String>)
        ensures
            r@.map_values(|s: String| s@) == listed_names(entries@),
    {
        let mut files: Vec<String> = Vec::new();
        let mut i: usize = 0;
        while i < entries.len()
            invariant
                i <= entries.len(),
                files@.map_values(|s: String| s@) == listed_names(entries@.subrange(0, i as int)),
            decreases entries.len() - i,
        {
            let ghost before = files@;
            let e = &entries[i];
            assert(entries@.subrange(0, i + 1).drop_last() =~= entries@.subrange(0, i as int));
            if is_listed_file(e.name.as_str(), e.is_file) {
                files.push(e.name.clone());
                assert(files@.map_values(|s: String| s@) =~= before.map_values(|s: String| s@)
                    + seq![e.name@]);
            } else if e.is_dir {
                let mut j: usize = 0;
                while j < e.children.len()
                    invariant
                        j <= e.children.len(),
                        files@.map_values(|s: String| s@) == before.map_values(|s: String| s@)
                            + listed_children(e.children@.subrange(0, j as int)),
                    decreases e.children.len() - j,
                {
                    let ghost mid = files@;
                    let c = &e.children[j];
                    assert(e.children@.subrange(0, j + 1).drop_last() =~= e.children@.subrange(0, j as int));
                    if is_listed_file(c.name.as_str(), c.is_file) {
                        files.push(c.name.clone());
                        assert(files@.map_values(|s: String| s@) =~= mid.map_values(|s: String| s@)
                            + seq![c.name@]);
                    }
                    assert(files@.map_values(|s: String| s@) =~= before.map_values(|s: String| s@)
                        + listed_children(e.children@.subrange(0, j + 1)));
                    j += 1;
                }
                assert(e.children@.subrange(0, e.children.len() as int) =~= e.children@);
            }
            assert(files@.map_values(|s: String| s@) =~= listed_names(entries@.subrange(0, i + 1)));
            i += 1;
        }
        assert(entries@.subrange(0, entries.len() as int) =~= entries@);
        files
    }

    /// Where to read the metadata of the title that `name` belongs to: the stored
    /// side-file when it exists, else the archive itself.
    pub fn metadata_lookup(&self, name: &str, side_file_exists: bool, archive_exists: bool) -> (r:
        Result<MetadataSource, AppError>)
        ensures
            match file_stem_of(name@) {
                None => r is Err && r->Err_0 == AppError::InvalidName,
                Some(k) => if side_file_exists {
                    r matches Ok(MetadataSource::SideFile(p)) && p@ == join_path(
                        join_path(self.directory@, k),
                        "metadata.json"@,
                    )
                } else if archive_exists {
                    r matches Ok(MetadataSource::Archive(p)) && p@ == join_path(
                        join_path(self.directory@, k),
                        name@,
                    )
                } else {
                    r is Err && r->Err_0 == AppError::NotFound
                },
            },
    {
        if side_file_exists {
            let p = self.metadata_file_path(name)?;
            Ok(MetadataSource::SideFile(p))
        } else {
            let p = self.get_full_path(name)?;
            if archive_exists {
                Ok(MetadataSource::Archive(p))
            } else {
                Err(AppError::NotFound)
            }
        }
    }

    /// The stored cover files of the title that `name` belongs to, in the order in
    /// which they are probed: `cover.jpg`, `cover.jpeg`, `cover.png`, `cover.webp`.
    pub fn cover_candidates(&self, name: &str) -> (r: Result<Vec<CoverCandidate>, AppError>)
        ensures
            match file_stem_of(name@) {
                None => r is Err && r->Err_0 == AppError::InvalidName,
                Some(k) => r is Ok && r->Ok_0.len() == 4 && forall|i: int|
                    0 <= i < 4 ==> {
                        &&& (#[trigger] r->Ok_0@[i]).path@ == join_path(
                            join_path(self.directory@, k),
                            "cover."@ + cover_probe_ext(i),
                        )
                        &&& r->Ok_0@[i].mime@ == cover_probe_mime(i)
                    },
            },
    {
        let folder = self.title_folder(name)?;
        let mut out: Vec<CoverCandidate> = Vec::new();
        let exts: [&str; 4] = ["jpg", "jpeg", "png", "webp"];
        let mimes: [&str; 4] = ["image/jpeg", "image/jpeg", "image/png", "image/webp"];
        let mut i: usize = 0;
        while i < 4
            invariant
                i <= 4,
                out.len() == i,
                exts@ == seq!["jpg", "jpeg", "png", "webp"],
                mimes@ == seq!["image/jpeg", "image/jpeg", "image/png", "image/webp"],
                file_stem_of(name@) is Some,
                folder@ == join_path(self.directory@, file_stem_of(name@)->0),
                forall|x: int|
                    0 <= x < i ==> {
                        &&& (#[trigger] out@[x]).path@ == join_path(
                            folder@,
                            "cover."@ + cover_probe_ext(x),
                        )
                        &&& out@[x].mime@ == cover_probe_mime(x)
                    },
            decreases 4 - i,
        {
            let mut file_name = to_chars("cover.");
            push_all(&mut file_name, &to_chars(exts[i]));
            let path = join(folder.as_str(), from_chars(file_name.as_slice()).as_str());
            let mime = mimes[i].to_owned();
            out.push(CoverCandidate { path, mime });
            i += 1;
        }
        Ok(out)
    }
}

} // verus!
