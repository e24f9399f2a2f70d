//! The comic metadata record and the tolerant tag scan that reads it from a descriptor.
use vstd::prelude::*;
use crate::text::{
    copy_range, find_chars, first_occurrence, from_chars, is_trimmed, lemma_trim_is_trimmed, push_all,
    to_chars, trim, trim_bounds,
};

verus! {

/// Descriptive metadata of one comic; every field is free text, empty when absent.
#[derive(Clone, Debug, PartialEq, Eq, Default)]
pub struct ComicInfo {
    pub title: String,
    pub series: String,
    pub writer: String,
    pub summary: String,
    pub year: String,
}

/// The mathematical value of a `ComicInfo`: its five fields as character sequences.
pub struct ComicInfoView {
    pub title: Seq<char>,
    pub series: Seq<char>,
    pub writer: Seq<char>,
    pub summary: Seq<char>,
    pub year: Seq<char>,
}

impl View for ComicInfo {
    type V = ComicInfoView;

    open spec fn view(&self) -> ComicInfoView {
        ComicInfoView {
            title: self.title@,
            series: self.series@,
            writer: self.writer@,
            summary: self.summary@,
            year: self.year@,
        }
    }
}

/// Reads archives of comic pages.
pub struct CbzViewer;

pub open spec fn open_tag(tag: Seq<char>) -> Seq<char> {
    seq!['<'] + tag + seq!['>']
}

pub open spec fn close_tag(tag: Seq<char>) -> Seq<char> {
    seq!['<', '/'] + tag + seq!['>']
}

/// The trimmed text between the first `<tag>` and the first `</tag>` of `text`;
/// `None` when either is missing or the closing tag comes before the content starts.
pub open spec fn tag_value(text: Seq<char>, tag: Seq<char>) -> Option<Seq<char>> {
    match (first_occurrence(text, open_tag(tag)), first_occurrence(text, close_tag(tag))) {
        (Some(a), Some(b)) => {
            let start = a + open_tag(tag).len();
            if start <= b {
                Some(trim(text.subrange(start, b)))
            } else {
                None
            }
        },
        _ => None,
    }
}

/// The value of a field read from a descriptor: the tag's value, or empty.
pub open spec fn field_value(text: Seq<char>, tag: Seq<char>) -> Seq<char> {
    match tag_value(text, tag) {
        Some(v) => v,
        None => Seq::empty(),
    }
}

/// The metadata that a descriptor's text describes.
pub open spec fn info_of_text(text: Seq<char>) -> ComicInfoView {
    ComicInfoView {
        title: field_value(text, "Title"@),
        series: field_value(text, "Series"@),
        writer: field_value(text, "Writer"@),
        summary: field_value(text, "Summary"@),
        year: field_value(text, "Year"@),
    }
}

/// A field read from a descriptor has no white space at either end, and is empty
/// when its opening or closing tag does not occur in the descriptor.
pub proof fn lemma_field_value_trimmed_or_empty(text: Seq<char>, tag: Seq<char>)
    ensures
        is_trimmed(field_value(text, tag)),
        first_occurrence(text, open_tag(tag)) is None || first_occurrence(text, close_tag(tag))
            is None ==> field_value(text, tag) == Seq::<char>::empty(),
{
    if tag_value(text, tag) is Some {
        let a = first_occurrence(text, open_tag(tag))->0;
        let b = first_occurrence(text, close_tag(tag))->0;
        lemma_trim_is_trimmed(text.subrange(a + open_tag(tag).len(), b));
    }
}

impl CbzViewer {
    /// The trimmed text between the first `<tag>` and the first `</tag>` in `contents`.
    pub fn extract_tag_value(contents: &str, tag: &str) -> (r: Option<String>)
        ensures
            match r {
                Some(v) => tag_value(contents@, tag@) == Some(v@),
                None => tag_value(contents@, tag@) is None,
            },
    {
        let text = to_chars(contents);
        let name = to_chars(tag);
        let mut start_tag: Vec<char> = vec!['<'];
        push_all(&mut start_tag, &name);
        start_tag.push('>');
        let mut end_tag: Vec<char> = vec!['<', '/'];
        push_all(&mut end_tag, &name);
        end_tag.push('>');
        assert(start_tag@ =~= open_tag(tag@));
        assert(end_tag@ =~= close_tag(tag@));
        let a = match find_chars(&text, &start_tag) {
            Some(a) => a,
            None => return None,
        };
        let b = match find_chars(&text, &end_tag) {
            Some(b) => b,
            None => return None,
        };
        if start_tag.len() > b || a > b - start_tag.len() {
            return None;
        }
        let start = a + start_tag.len();
        let (lo, hi) = trim_bounds(&text, start, b);
        let value = copy_range(&text, lo, hi);
        Some(from_chars(value.as_slice()))
    }

    fn field(contents: &str, tag: &str) -> (r: String)
        ensures
            r@ == field_value(contents@, tag@),
    {
        match Self::extract_tag_value(contents, tag) {
            Some(v) => v,
            None => String::new(),
        }
    }

    /// Reads the five metadata fields from a descriptor's text.
    pub fn parse_comic_info(contents: &str) -> (r: ComicInfo)
        ensures
            r@ == info_of_text(contents@),
    {
        ComicInfo {
            title: Self::field(contents, "Title"),
            series: Self::field(contents, "Series"),
            writer: Self::field(contents, "Writer"),
            summary: Self::field(contents, "Summary"),
            year: Self::field(contents, "Year"),
        }
    }
}

} // verus!
