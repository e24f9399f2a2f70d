//! Reading comic archives held in memory: metadata, cover, pages.
use vstd::prelude::*;
use std::io::Cursor;
use zip::result::ZipError;
use zip::ZipArchive;
use crate::comic_info::{info_of_text, CbzViewer, ComicInfo, ComicInfoView};
use crate::data_uri::{base64_of, data_uri, image_data_uri};
use crate::error::AppError;
use crate::page_order::{
    index_view, insert_in_order, is_image_chars, is_image_name, is_page_order, key_views,
    lemma_page_order_unique,
};
use crate::text::{ends_with, ends_with_chars, lower_of, lowercase, to_chars};

verus! {

#[verifier::external_type_specification]
#[verifier::external_body]
#[verifier::reject_recursive_types(T)]
pub struct ExCursor<T>(Cursor<T>);

#[verifier::external_type_specification]
#[verifier::external_body]
#[verifier::reject_recursive_types(R)]
pub struct ExZipArchive<R>(ZipArchive<R>);

#[verifier::external_type_specification]
#[verifier::external_body]
pub struct ExZipError(ZipError);

/// The entries that `ZipArchive::new` finds in some bytes, each a name and its content
/// (`None` where the content cannot be read); `None` where the bytes are no archive.
pub uninterp spec fn zip_entries_of(data: Seq<u8>) -> Option<Seq<(Seq<char>, Option<Seq<u8>>)>>;

/// The entries that an open archive holds.
pub uninterp spec fn archive_entries(a: ZipArchive<Cursor<Vec<u8>>>) -> Seq<(Seq<char>, Option<Seq<u8>>)>;

/// Relies on `ZipArchive::new`: it reads the archive's central directory and fails on a
/// malformed container.
#[verifier::external_body]
fn open_archive(data: Vec<u8>) -> (r: Result<ZipArchive<Cursor<Vec<u8>>>, ZipError>)
    ensures
        match r {
            Ok(a) => zip_entries_of(data@) == Some(archive_entries(a)),
            Err(_) => zip_entries_of(data@) is None,
        },
{
    ZipArchive::new(Cursor::new(data))
}

/// Relies on `ZipArchive::len`: the number of entries.
#[verifier::external_body]
fn entry_count(a: &ZipArchive<Cursor<Vec<u8>>>) -> (r: usize)
    ensures
        r == archive_entries(*a).len(),
{
    a.len()
}

/// Relies on `ZipArchive::name_for_index`: the name of entry `i`, absent past the end.
#[verifier::external_body]
fn entry_name(a: &ZipArchive<Cursor<Vec<u8>>>, i: usize) -> (r: Option<String>)
    ensures
        i < archive_entries(*a).len() ==> r is Some && r->0@ == archive_entries(*a)[i as int].0,
        i >= archive_entries(*a).len() ==> r is None,
{
    a.name_for_index(i).map(|s| s.to_string())
}

/// Relies on `ZipArchive::by_index` and on reading that entry to its end: the
/// decompressed content of entry `i`; the entries themselves are left as they were.
#[verifier::external_body]
fn entry_data(a: &mut ZipArchive<Cursor<Vec<u8>>>, i: usize) -> (r: Result<Vec<u8>, ZipError>)
    requires
        i < archive_entries(*old(a)).len(),
    ensures
        archive_entries(*final(a)) == archive_entries(*old(a)),
        match r {
            Ok(v) => archive_entries(*old(a))[i as int].1 == Some(v@),
            Err(_) => archive_entries(*old(a))[i as int].1 is None,
        },
{
    let mut file = a.by_index(i)?;
    let mut buffer = Vec::new();
    std::io::Read::read_to_end(&mut file, &mut buffer)?;
    Ok(buffer)
}

/// The text that some bytes hold as UTF-8; `None` where they are not UTF-8.
pub uninterp spec fn utf8_text_of(b: Seq<u8>) -> Option<Seq<char>>;

/// Relies on `String::from_utf8`: the bytes as text, where they are valid UTF-8.
#[verifier::external_body]
fn decode_utf8(b: Vec<u8>) -> (r: Option<String>)
    ensures
        match r {
            Some(s) => utf8_text_of(b@) == Some(s@),
            None => utf8_text_of(b@) is None,
        },
{
    String::from_utf8(b).ok()
}

pub type EntrySpec = (Seq<char>, Option<Seq<u8>>);

/// The lower-cased names of the entries.
pub open spec fn entry_keys(es: Seq<EntrySpec>) -> Seq<Seq<char>> {
    es.map_values(|e: EntrySpec| lower_of(e.0))
}

/// A lower-cased entry name that denotes the metadata descriptor.
pub open spec fn is_descriptor_name(lower: Seq<char>) -> bool {
    ends_with(lower, "comicinfo.xml"@)
}

/// The first descriptor at or after position `k`.
pub open spec fn first_descriptor_from(keys: Seq<Seq<char>>, k: int) -> Option<int>
    decreases keys.len() - k,
{
    if k < 0 || k >= keys.len() {
        None
    } else if is_descriptor_name(keys[k]) {
        Some(k)
    } else {
        first_descriptor_from(keys, k + 1)
    }
}

/// The first image, in archive order, at or after position `k`.
pub open spec fn first_image_from(keys: Seq<Seq<char>>, k: int) -> Option<int>
    decreases keys.len() - k,
{
    if k < 0 || k >= keys.len() {
        None
    } else if is_image_name(keys[k]) {
        Some(k)
    } else {
        first_image_from(keys, k + 1)
    }
}

/// The MIME type of an image, by its lower-cased name.
pub open spec fn image_mime(lower: Seq<char>) -> Seq<char> {
    if ends_with(lower, ".png"@) {
        "image/png"@
    } else {
        "image/jpeg"@
    }
}

/// What reading the metadata of an archive gives.
pub open spec fn comic_info_result(opened: Option<Seq<EntrySpec>>) -> Result<ComicInfoView, AppError> {
    match opened {
        None => Err(AppError::Archive),
        Some(es) => match first_descriptor_from(entry_keys(es), 0) {
            None => Err(AppError::NotFound),
            Some(k) => match es[k].1 {
                None => Err(AppError::Archive),
                Some(b) => match utf8_text_of(b) {
                    None => Err(AppError::Archive),
                    Some(t) => Ok(info_of_text(t)),
                },
            },
        },
    }
}

/// Entry `k` of `es` as a data URI, where its content can be read.
pub open spec fn entry_uri(es: Seq<EntrySpec>, k: int) -> Option<Seq<char>> {
    match es[k].1 {
        None => None,
        Some(b) => Some(data_uri(image_mime(entry_keys(es)[k]), base64_of(b))),
    }
}

/// What extracting the cover of an archive gives: its first image in archive order.
pub open spec fn cover_result(opened: Option<Seq<EntrySpec>>) -> Result<Option<Seq<char>>, AppError> {
    match opened {
        None => Err(AppError::Archive),
        Some(es) => match first_image_from(entry_keys(es), 0) {
            None => Ok(None),
            Some(k) => match entry_uri(es, k) {
                None => Err(AppError::Archive),
                Some(u) => Ok(Some(u)),
            },
        },
    }
}

/// The reading order of the entries: the one sequence of image positions that
/// `is_page_order` admits.
pub open spec fn page_order(es: Seq<EntrySpec>) -> Seq<int> {
    choose|o: Seq<int>| is_page_order(entry_keys(es), o)
}

/// The names of the pages, in reading order.
pub open spec fn page_names(es: Seq<EntrySpec>) -> Seq<Seq<char>> {
    page_order(es).map_values(|k: int| es[k].0)
}

pub open spec fn string_views(v: Seq<String>) -> Seq<Seq<char>> {
    v.map_values(|s: String| s@)
}

proof fn lemma_no_descriptor_from(keys: Seq<Seq<char>>, k: int)
    requires
        0 <= k,
        forall|j: int| 0 <= j < keys.len() ==> !is_descriptor_name(#[trigger] keys[j]),
    ensures
        first_descriptor_from(keys, k) is None,
    decreases keys.len() - k,
{
    if k < keys.len() {
        lemma_no_descriptor_from(keys, k + 1);
    }
}

/// An archive none of whose entries is named like a metadata descriptor yields
/// `NotFound` when its metadata is read.
pub proof fn lemma_no_descriptor_not_found(es: Seq<EntrySpec>)
    requires
        forall|j: int| 0 <= j < es.len() ==> !is_descriptor_name(lower_of(#[trigger] es[j].0)),
    ensures
        comic_info_result(Some(es)) == Err::<ComicInfoView, AppError>(AppError::NotFound),
{
    assert forall|j: int| 0 <= j < entry_keys(es).len() implies !is_descriptor_name(
        #[trigger] entry_keys(es)[j],
    ) by {
        assert(entry_keys(es)[j] == lower_of(es[j].0));
    }
    lemma_no_descriptor_from(entry_keys(es), 0);
}

fn open(data: Vec<u8>) -> (r: Result<ZipArchive<Cursor<Vec<u8>>>, AppError>)
    ensures
        match r {
            Ok(a) => zip_entries_of(data@) == Some(archive_entries(a)),
            Err(e) => e == AppError::Archive && zip_entries_of(data@) is None,
        },
{
    match open_archive(data) {
        Ok(a) => Ok(a),
        Err(_) => Err(AppError::Archive),
    }
}

/// The lower-cased name of entry `i`.
fn entry_key(a: &ZipArchive<Cursor<Vec<u8>>>, i: usize) -> (r: Vec<char>)
    requires
        i < archive_entries(*a).len(),
    ensures
        r@ == entry_keys(archive_entries(*a))[i as int],
{
    let name = match entry_name(a, i) {
        Some(n) => n,
        None => vstd::pervasive::unreached(),
    };
    let lower = lowercase(name.as_str());
    to_chars(lower.as_str())
}

fn mime_for(lower: &Vec<char>) -> (r: &'static str)
    ensures
        r@ == image_mime(lower@),
{
    let png: Vec<char> = vec!['.', 'p', 'n', 'g'];
    proof {
        reveal_strlit(".png");
        assert(png@ =~= ".png"@);
    }
    if ends_with_chars(lower, &png) {
        "image/png"
    } else {
        "image/jpeg"
    }
}

/// Entry `k` as a data URI.
fn read_entry_uri(a: &mut ZipArchive<Cursor<Vec<u8>>>, k: usize) -> (r: Result<String, AppError>)
    requires
        k < archive_entries(*old(a)).len(),
    ensures
        archive_entries(*final(a)) == archive_entries(*old(a)),
        match r {
            Ok(u) => entry_uri(archive_entries(*old(a)), k as int) == Some(u@),
            Err(e) => e == AppError::Archive && entry_uri(archive_entries(*old(a)), k as int) is None,
        },
{
    let key = entry_key(a, k);
    let mime = mime_for(&key);
    match entry_data(a, k) {
        Ok(bytes) => Ok(image_data_uri(mime, bytes.as_slice())),
        Err(_) => Err(AppError::Archive),
    }
}

/// The keys of all entries and the reading order of the pages.
fn scan_pages(a: &ZipArchive<Cursor<Vec<u8>>>) -> (r: (Vec<Vec<char>>, Vec<usize>))
    ensures
        key_views(r.0@) == entry_keys(archive_entries(*a)),
        index_view(r.1@) == page_order(archive_entries(*a)),
        is_page_order(entry_keys(archive_entries(*a)), page_order(archive_entries(*a))),
        forall|p: int| 0 <= p < r.1.len() ==> r.1@[p] < archive_entries(*a).len(),
{
    let ghost es = archive_entries(*a);
    let n = entry_count(a);
    let mut keys: Vec<Vec<char>> = Vec::new();
    let mut ord: Vec<usize> = Vec::new();
    let mut k: usize = 0;
    while k < n
        invariant
            n == es.len(),
            es == archive_entries(*a),
            k <= n,
            keys.len() == k,
            key_views(keys@) == entry_keys(es).subrange(0, k as int),
            forall|p: int| 0 <= p < ord.len() ==> ord@[p] < k,
            forall|p: int, q: int|
                0 <= p < q < ord.len() ==> crate::page_order::entry_before(
                    key_views(keys@),
                    ord@[p] as int,
                    ord@[q] as int,
                ),
            forall|x: int|
                index_view(ord@).contains(x) <==> (0 <= x < k && is_image_name(
                    entry_keys(es)[x],
                )),
        decreases n - k,
    {
        let key = entry_key(a, k);
        let image = is_image_chars(&key);
        let ghost old_keys = keys@;
        keys.push(key);
        assert(key_views(keys@) =~= entry_keys(es).subrange(0, k + 1));
        assert forall|p: int, q: int|
            0 <= p < q < ord.len() implies crate::page_order::entry_before(
            key_views(keys@),
            ord@[p] as int,
            ord@[q] as int,
        ) by {
            assert(key_views(old_keys)[ord@[p] as int] == key_views(keys@)[ord@[p] as int]);
            assert(key_views(old_keys)[ord@[q] as int] == key_views(keys@)[ord@[q] as int]);
            assert(crate::page_order::entry_before(key_views(old_keys), ord@[p] as int, ord@[q] as int));
        }
        if image {
            insert_in_order(&keys, &mut ord, k);
        }
        k += 1;
    }
    assert(key_views(keys@) =~= entry_keys(es));
    proof {
        assert(is_page_order(entry_keys(es), index_view(ord@)));
        lemma_page_order_unique(entry_keys(es), index_view(ord@), page_order(es));
    }
    (keys, ord)
}

impl CbzViewer {
    /// Reads the metadata descriptor of the archive held in `data`: the first entry, in
    /// archive order, whose lower-cased name ends with `comicinfo.xml`.
    pub fn read_comic_info(data: Vec<u8>) -> (r: Result<ComicInfo, AppError>)
        ensures
            match r {
                Ok(info) => comic_info_result(zip_entries_of(data@)) == Ok::<ComicInfoView, AppError>(info@),
                Err(e) => comic_info_result(zip_entries_of(data@)) == Err::<ComicInfoView, AppError>(e),
            },
    {
        let ghost bytes = data@;
        let mut a = match open(data) {
            Ok(a) => a,
            Err(e) => return Err(e),
        };
        let ghost es = archive_entries(a);
        let suffix = to_chars("comicinfo.xml");
        let n = entry_count(&a);
        let mut i: usize = 0;
        while i < n
            invariant
                n == es.len(),
                es == archive_entries(a),
                bytes == data@,
                zip_entries_of(bytes) == Some(es),
                suffix@ == "comicinfo.xml"@,
                i <= n,
                first_descriptor_from(entry_keys(es), 0) == first_descriptor_from(entry_keys(es), i as int),
            decreases n - i,
        {
            let key = entry_key(&a, i);
            if ends_with_chars(&key, &suffix) {
                assert(first_descriptor_from(entry_keys(es), i as int) == Some(i as int));
                let content = match entry_data(&mut a, i) {
                    Ok(c) => c,
                    Err(_) => return Err(AppError::Archive),
                };
                let text = match decode_utf8(content) {
                    Some(t) => t,
                    None => return Err(AppError::Archive),
                };
                return Ok(CbzViewer::parse_comic_info(text.as_str()));
            }
            i += 1;
        }
        Err(AppError::NotFound)
    }

    /// The first image of the archive, in archive order, as a data URI; `None` when the
    /// archive holds no image.
    pub fn extract_cover_image(data: Vec<u8>) -> (r: Result<Option<String>, AppError>)
        ensures
            match r {
                Ok(None) => cover_result(zip_entries_of(data@)) == Ok::<Option<Seq<char>>, AppError>(None),
                Ok(Some(u)) => cover_result(zip_entries_of(data@)) == Ok::<Option<Seq<char>>, AppError>(Some(u@)),
                Err(e) => cover_result(zip_entries_of(data@)) == Err::<Option<Seq<char>>, AppError>(e),
            },
    {
        let ghost bytes = data@;
        let mut a = match open(data) {
            Ok(a) => a,
            Err(e) => return Err(e),
        };
        let ghost es = archive_entries(a);
        let n = entry_count(&a);
        let mut i: usize = 0;
        while i < n
            invariant
                n == es.len(),
                es == archive_entries(a),
                bytes == data@,
                zip_entries_of(bytes) == Some(es),
                i <= n,
                first_image_from(entry_keys(es), 0) == first_image_from(entry_keys(es), i as int),
            decreases n - i,
        {
            let key = entry_key(&a, i);
            if is_image_chars(&key) {
                assert(first_image_from(entry_keys(es), i as int) == Some(i as int));
                return match read_entry_uri(&mut a, i) {
                    Ok(u) => Ok(Some(u)),
                    Err(e) => Err(e),
                };
            }
            i += 1;
        }
        Ok(None)
    }

    /// The names of the archive's images in reading order: sorted by lower-cased name,
    /// names equal but for case kept in archive order.
    pub fn get_image_list(data: Vec<u8>) -> (r: Result<Vec<String>, AppError>)
        ensures
            match zip_entries_of(data@) {
                None => r == Err::<Vec<String>, AppError>(AppError::Archive),
                Some(es) => {
                    &&& is_page_order(entry_keys(es), page_order(es))
                    &&& r is Ok
                    &&& string_views(r->Ok_0@) == page_names(es)
                },
            },
    {
        let a = match open(data) {
            Ok(a) => a,
            Err(e) => return Err(e),
        };
        let ghost es = archive_entries(a);
        let ghost bytes = data@;
        let (_keys, ord) = scan_pages(&a);
        let mut names: Vec<String> = Vec::new();
        let mut p: usize = 0;
        while p < ord.len()
            invariant
                bytes == data@,
                zip_entries_of(bytes) == Some(es),
                es == archive_entries(a),
                index_view(ord@) == page_order(es),
                forall|x: int| 0 <= x < ord.len() ==> ord@[x] < es.len(),
                p <= ord.len(),
                names.len() == p,
                page_names(es).len() == ord.len(),
                forall|x: int| 0 <= x < p ==> #[trigger] names@[x]@ == page_names(es)[x],
            decreases ord.len() - p,
        {
            let name = match entry_name(&a, ord[p]) {
                Some(n) => n,
                None => vstd::pervasive::unreached(),
            };
            assert(page_order(es)[p as int] == ord@[p as int] as int);
            assert(name@ == es[ord@[p as int] as int].0);
            assert(page_names(es)[p as int] == es[page_order(es)[p as int]].0);
            names.push(name);
            p += 1;
        }
        assert(string_views(names@) =~= page_names(es));
        Ok(names)
    }

    /// The number of pages: the length of `get_image_list`.
    pub fn get_page_count(data: Vec<u8>) -> (r: Result<usize, AppError>)
        ensures
            match zip_entries_of(data@) {
                None => r == Err::<usize, AppError>(AppError::Archive),
                Some(es) => r == Ok::<usize, AppError>(page_order(es).len() as usize),
            },
    {
        let a = match open(data) {
            Ok(a) => a,
            Err(e) => return Err(e),
        };
        let (_keys, ord) = scan_pages(&a);
        Ok(ord.len())
    }

    /// Page `index`, in reading order, as a data URI.
    pub fn load_image_by_index(data: Vec<u8>, index: usize) -> (r: Result<String, AppError>)
        ensures
            match zip_entries_of(data@) {
                None => r == Err::<String, AppError>(AppError::Archive),
                Some(es) => if index >= page_order(es).len() {
                    r == Err::<String, AppError>(AppError::IndexOutOfRange)
                } else {
                    match entry_uri(es, page_order(es)[index as int]) {
                        None => r == Err::<String, AppError>(AppError::Archive),
                        Some(u) => r is Ok && r->Ok_0@ == u,
                    }
                },
            },
    {
        let mut a = match open(data) {
            Ok(a) => a,
            Err(e) => return Err(e),
        };
        let ghost es = archive_entries(a);
        let (_keys, ord) = scan_pages(&a);
        if index >= ord.len() {
            return Err(AppError::IndexOutOfRange);
        }
        read_entry_uri(&mut a, ord[index])
    }

    /// Every page, in reading order, as a data URI.
    pub fn load_images(data: Vec<u8>) -> (r: Result<Vec<String>, AppError>)
        ensures
            match zip_entries_of(data@) {
                None => r == Err::<Vec<String>, AppError>(AppError::Archive),
                Some(es) => match r {
                    Ok(v) => v.len() == page_order(es).len() && forall|p: int|
                        0 <= p < v.len() ==> entry_uri(es, page_order(es)[p]) == Some(
                            #[trigger] v@[p]@,
                        ),
                    Err(e) => e == AppError::Archive && exists|p: int|
                        0 <= p < page_order(es).len() && #[trigger] entry_uri(
                            es,
                            page_order(es)[p],
                        ) is None,
                },
            },
    {
        let mut a = match open(data) {
            Ok(a) => a,
            Err(e) => return Err(e),
        };
        let ghost es = archive_entries(a);
        let ghost bytes = data@;
        let (_keys, ord) = scan_pages(&a);
        let mut images: Vec<String> = Vec::new();
        let mut p: usize = 0;
        while p < ord.len()
            invariant
                bytes == data@,
                zip_entries_of(bytes) == Some(es),
                es == archive_entries(a),
                index_view(ord@) == page_order(es),
                forall|x: int| 0 <= x < ord.len() ==> ord@[x] < es.len(),
                p <= ord.len(),
                images.len() == p,
                forall|x: int| 0 <= x < p ==> entry_uri(es, page_order(es)[x]) == Some(#[trigger] images@[x]@),
            decreases ord.len() - p,
        {
            let ghost k = page_order(es)[p as int];
            assert(k == ord@[p as int] as int);
            let uri = match read_entry_uri(&mut a, ord[p]) {
                Ok(u) => u,
                Err(e) => {
                    assert(entry_uri(es, page_order(es)[p as int]) is None);
                    return Err(e);
                },
            };
            images.push(uri);
            p += 1;
        }
        assert(index_view(ord@).len() == ord.len());
        Ok(images)
    }
}

} // verus!
