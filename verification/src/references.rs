//! References to image files in running text.
//!
//! Text names image files in three ways: as a bare path, in a Markdown image,
//! or in an HTML `img` element. Each way has a pattern. The matches of a
//! pattern are found with `regex`; which part of a match is the path, where a
//! relative path starts from, and how replacements are put into the text is
//! decided here. Whether a file exists, and what it holds, is for the caller
//! to find out.

use vstd::prelude::*;
use crate::chars::{chars_of, extend_chars, string_of};

verus! {

/// The way in which text names an image file.
#[derive(Debug, Clone, Copy, PartialEq, Eq, Structural)]
pub enum ReferenceKind {
    /// A path that ends in the extension of an image format.
    Path,
    /// `![description](path)`.
    Markdown,
    /// An `img` element with the path as its source.
    Html,
}

/// One match of a pattern: the text matched, and what its first two groups
/// caught, where they took part in the match.
#[derive(Debug, PartialEq)]
pub struct Capture {
    pub full: String,
    pub first: Option<String>,
    pub second: Option<String>,
}

/// A reference to an image file: the text that names it, the path, and the
/// description where the notation has one.
#[derive(Debug, PartialEq)]
pub struct ImageReference {
    pub full_match: String,
    pub path: String,
    pub alt: Option<String>,
}

pub ghost struct CaptureView {
    pub full: Seq<char>,
    pub first: Option<Seq<char>>,
    pub second: Option<Seq<char>>,
}

pub ghost struct ImageReferenceView {
    pub full_match: Seq<char>,
    pub path: Seq<char>,
    pub alt: Option<Seq<char>>,
}

/// The characters of a text that may be missing.
pub open spec fn text_view(text: Option<String>) -> Option<Seq<char>> {
    match text {
        Some(t) => Some(t@),
        None => None,
    }
}

impl View for Capture {
    type V = CaptureView;

    open spec fn view(&self) -> CaptureView {
        CaptureView {
            full: self.full@,
            first: text_view(self.first),
            second: text_view(self.second),
        }
    }
}

impl View for ImageReference {
    type V = ImageReferenceView;

    open spec fn view(&self) -> ImageReferenceView {
        ImageReferenceView {
            full_match: self.full_match@,
            path: self.path@,
            alt: text_view(self.alt),
        }
    }
}

pub open spec fn captures_view(captures: Seq<Capture>) -> Seq<CaptureView> {
    Seq::new(captures.len(), |i: int| captures[i]@)
}

pub open spec fn references_view(references: Seq<ImageReference>) -> Seq<ImageReferenceView> {
    Seq::new(references.len(), |i: int| references[i]@)
}

/// The matches that `regex` finds for a pattern in a text, from left to right
/// and without overlap; `None` where the pattern is no regular expression.
pub uninterp spec fn matches_of(pattern: Seq<char>, text: Seq<char>) -> Option<Seq<CaptureView>>;

/// `Regex::new` and `Regex::captures_iter`: all matches of a pattern in a
/// text, each with the text it matched and with its first two groups. The
/// result depends on the pattern and the text alone.
#[verifier::external_body]
fn find_matches(pattern: &str, text: &str) -> (r: Option<Vec<Capture>>)
    ensures
        match r {
            Some(found) => matches_of(pattern@, text@) == Some(captures_view(found@)),
            None => matches_of(pattern@, text@) is None,
        },
{
    let expression = regex::Regex::new(pattern).ok()?;
    Some(
        expression.captures_iter(text).map(
            |found| Capture {
                full: found[0].to_string(),
                first: found.get(1).map(|group| group.as_str().to_string()),
                second: found.get(2).map(|group| group.as_str().to_string()),
            },
        ).collect(),
    )
}

/// The pattern of each kind of reference.
pub open spec fn pattern_of(kind: ReferenceKind) -> Seq<char> {
    match kind {
        ReferenceKind::Path => r"([^\s]+\.(png|jpg|jpeg|gif|svg|bmp|webp))"@,
        ReferenceKind::Markdown => r"!\[([^\]]*)\]\(([^)]+\.(png|jpg|jpeg|gif|svg|bmp|webp))\)"@,
        ReferenceKind::Html => r#"<img[^>]+src="([^"]+\.(png|jpg|jpeg|gif|svg|bmp|webp))"[^>]*>"#@,
    }
}

/// The kinds in the order in which a text is gone through.
pub open spec fn kind_order() -> Seq<ReferenceKind> {
    seq![ReferenceKind::Path, ReferenceKind::Markdown, ReferenceKind::Html]
}

/// The reference that a match stands for. In a Markdown image the first group
/// is the description and the second the path; in the other notations the
/// first group is the path. A match without its path is no reference.
pub open spec fn reference_in(kind: ReferenceKind, capture: CaptureView) -> Option<
    ImageReferenceView,
> {
    match kind {
        ReferenceKind::Markdown => match capture.second {
            Some(path) => Some(
                ImageReferenceView { full_match: capture.full, path, alt: capture.first },
            ),
            None => None,
        },
        _ => match capture.first {
            Some(path) => Some(ImageReferenceView { full_match: capture.full, path, alt: None }),
            None => None,
        },
    }
}

/// The references among the first `count` matches, in their order.
pub open spec fn references_among(kind: ReferenceKind, captures: Seq<CaptureView>, count: nat)
    -> Seq<ImageReferenceView>
    decreases count,
{
    if count == 0 || count > captures.len() {
        Seq::empty()
    } else {
        let before = references_among(kind, captures, (count - 1) as nat);
        match reference_in(kind, captures[count - 1]) {
            Some(reference) => before.push(reference),
            None => before,
        }
    }
}

/// The references of one kind in a text.
pub open spec fn references_in(kind: ReferenceKind, text: Seq<char>) -> Seq<ImageReferenceView> {
    match matches_of(pattern_of(kind), text) {
        Some(captures) => references_among(kind, captures, captures.len()),
        None => Seq::empty(),
    }
}

/// The path that a reference is looked up under: a relative path is put
/// behind the base, where there is one; any other path stays.
pub open spec fn resolved(base: Option<Seq<char>>, path: Seq<char>, relative: bool) -> Seq<char> {
    match base {
        Some(start) => if relative {
            start + "/"@ + path
        } else {
            path
        },
        None => path,
    }
}

/// A text with every occurrence of `from` replaced by `to`, going from left
/// to right; what has been replaced is not searched again. An empty `from`
/// occurs before every character and at the end.
pub open spec fn replaced(text: Seq<char>, from: Seq<char>, to: Seq<char>) -> Seq<char>
    decreases text.len(),
{
    if text.len() == 0 {
        if from.len() == 0 {
            to
        } else {
            text
        }
    } else if from.len() == 0 {
        to + seq![text[0]] + replaced(text.skip(1), from, to)
    } else if from.len() <= text.len() && text.take(from.len() as int) == from {
        to + replaced(text.skip(from.len() as int), from, to)
    } else {
        seq![text[0]] + replaced(text.skip(1), from, to)
    }
}

/// A text after the first `count` replacements, one after the other.
pub open spec fn replaced_all(text: Seq<char>, pairs: Seq<(Seq<char>, Seq<char>)>, count: nat)
    -> Seq<char>
    decreases count,
{
    if count == 0 || count > pairs.len() {
        text
    } else {
        replaced(
            replaced_all(text, pairs, (count - 1) as nat),
            pairs[count - 1].0,
            pairs[count - 1].1,
        )
    }
}

pub open spec fn pairs_view(pairs: Seq<(String, String)>) -> Seq<(Seq<char>, Seq<char>)> {
    Seq::new(pairs.len(), |i: int| (pairs[i].0@, pairs[i].1@))
}

pub open spec fn outcomes_view(outcomes: Seq<Option<String>>) -> Seq<Option<Seq<char>>> {
    Seq::new(outcomes.len(), |i: int| text_view(outcomes[i]))
}

/// The replacements among the first `count` references: for each reference
/// that was converted, the text that names the file and what takes its place,
/// in the order of the references. A reference without an outcome, because
/// its file is not there or could not be converted, is left alone.
pub open spec fn replacements_among(
    references: Seq<ImageReferenceView>,
    outcomes: Seq<Option<Seq<char>>>,
    count: nat,
) -> Seq<(Seq<char>, Seq<char>)>
    decreases count,
{
    if count == 0 || count > references.len() {
        Seq::empty()
    } else {
        let before = replacements_among(references, outcomes, (count - 1) as nat);
        if count <= outcomes.len() && outcomes[count - 1] is Some {
            before.push((references[count - 1].full_match, outcomes[count - 1]->0))
        } else {
            before
        }
    }
}

/// Decides which references are replaced: those with an outcome, each by its
/// outcome. `outcomes` holds for each reference, in order, what the
/// conversion of its file gave; a reference beyond the outcomes has none.
pub fn replacements_of(references: &Vec<ImageReference>, outcomes: &Vec<Option<String>>) -> (r: Vec<
    (String, String),
>)
    ensures
        pairs_view(r@) == replacements_among(
            references_view(references@),
            outcomes_view(outcomes@),
            references@.len(),
        ),
{
    let mut r: Vec<(String, String)> = Vec::new();
    let mut i: usize = 0;
    assert(pairs_view(r@) =~= Seq::empty());
    while i < references.len()
        invariant
            i <= references.len(),
            pairs_view(r@) == replacements_among(
                references_view(references@),
                outcomes_view(outcomes@),
                i as nat,
            ),
        decreases references.len() - i,
    {
        let ghost before = r@;
        assert(references_view(references@)[i as int] == references@[i as int]@);
        if i < outcomes.len() {
            assert(outcomes_view(outcomes@)[i as int] == text_view(outcomes@[i as int]));
            match &outcomes[i] {
                Some(text) => {
                    r.push((references[i].full_match.clone(), text.clone()));
                    assert(pairs_view(r@) =~= pairs_view(before).push(
                        (references@[i as int].full_match@, text@),
                    ));
                },
                None => {},
            }
        }
        i += 1;
    }
    r
}

/// The pattern of a kind of reference.
pub fn pattern(kind: ReferenceKind) -> (p: &'static str)
    ensures
        p@ == pattern_of(kind),
{
    match kind {
        ReferenceKind::Path => r"([^\s]+\.(png|jpg|jpeg|gif|svg|bmp|webp))",
        ReferenceKind::Markdown => r"!\[([^\]]*)\]\(([^)]+\.(png|jpg|jpeg|gif|svg|bmp|webp))\)",
        ReferenceKind::Html => r#"<img[^>]+src="([^"]+\.(png|jpg|jpeg|gif|svg|bmp|webp))"[^>]*>"#,
    }
}

/// The kinds in the order in which a text is gone through.
pub fn kinds() -> (order: Vec<ReferenceKind>)
    ensures
        order@ == kind_order(),
{
    let mut order: Vec<ReferenceKind> = Vec::new();
    order.push(ReferenceKind::Path);
    order.push(ReferenceKind::Markdown);
    order.push(ReferenceKind::Html);
    assert(order@ =~= kind_order());
    order
}

/// Reads a match as a reference.
pub fn reference_of(kind: ReferenceKind, capture: &Capture) -> (r: Option<ImageReference>)
    ensures
        match r {
            Some(reference) => reference_in(kind, capture@) == Some(reference@),
            None => reference_in(kind, capture@) is None,
        },
{
    match kind {
        ReferenceKind::Markdown => match &capture.second {
            Some(path) => Some(
                ImageReference {
                    full_match: capture.full.clone(),
                    path: path.clone(),
                    alt: match &capture.first {
                        Some(alt) => Some(alt.clone()),
                        None => None,
                    },
                },
            ),
            None => None,
        },
        _ => match &capture.first {
            Some(path) => Some(
                ImageReference { full_match: capture.full.clone(), path: path.clone(), alt: None },
            ),
            None => None,
        },
    }
}

/// Reads matches as references, in their order.
pub fn references_of(kind: ReferenceKind, captures: &Vec<Capture>) -> (references: Vec<
    ImageReference,
>)
    ensures
        references_view(references@) == references_among(
            kind,
            captures_view(captures@),
            captures@.len(),
        ),
{
    let mut references: Vec<ImageReference> = Vec::new();
    let mut i: usize = 0;
    assert(references_view(references@) =~= Seq::empty());
    while i < captures.len()
        invariant
            i <= captures.len(),
            references_view(references@) == references_among(
                kind,
                captures_view(captures@),
                i as nat,
            ),
        decreases captures.len() - i,
    {
        assert(captures_view(captures@)[i as int] == captures@[i as int]@);
        match reference_of(kind, &captures[i]) {
            Some(reference) => {
                let ghost before = references@;
                references.push(reference);
                assert(references_view(references@) =~= references_view(before).push(reference@));
            },
            None => {},
        }
        i += 1;
    }
    references
}

/// Finds the references of one kind in a text.
pub fn image_references(content: &str, kind: ReferenceKind) -> (references: Vec<ImageReference>)
    ensures
        references_view(references@) == references_in(kind, content@),
{
    match find_matches(pattern(kind), content) {
        Some(captures) => references_of(kind, &captures),
        None => {
            let references: Vec<ImageReference> = Vec::new();
            assert(references_view(references@) =~= Seq::empty());
            references
        },
    }
}

/// The path under which a reference is looked up. Whether the path is
/// relative is for the caller to say.
pub fn resolve_path(base: Option<&str>, path: &str, relative: bool) -> (r: String)
    ensures
        r@ == resolved(
            match base {
                Some(start) => Some(start@),
                None => None,
            },
            path@,
            relative,
        ),
{
    let mut out: Vec<char> = Vec::new();
    match base {
        Some(start) => {
            if relative {
                extend_chars(&mut out, start);
                extend_chars(&mut out, "/");
            }
        },
        None => {},
    }
    extend_chars(&mut out, path);
    proof {
        match base {
            Some(start) => {
                if relative {
                    assert(out@ =~= start@ + "/"@ + path@);
                } else {
                    assert(out@ =~= path@);
                }
            },
            None => {
                assert(out@ =~= path@);
            },
        }
    }
    string_of(out.as_slice())
}

/// Whether `from` stands in `text` at `at`.
fn stands_at(text: &Vec<char>, from: &Vec<char>, at: usize) -> (r: bool)
    requires
        at <= text.len(),
    ensures
        r == (from@.len() <= text@.len() - at && text@.skip(at as int).take(from@.len() as int)
            == from@),
{
    if from.len() > text.len() - at {
        return false;
    }
    let ghost window = text@.skip(at as int).take(from@.len() as int);
    let mut j: usize = 0;
    while j < from.len()
        invariant
            j <= from.len(),
            at + from.len() <= text.len(),
            window == text@.skip(at as int).take(from@.len() as int),
            forall|k: int| 0 <= k < j ==> text@[at + k] == from@[k],
        decreases from.len() - j,
    {
        if text[at + j] != from[j] {
            assert(window[j as int] != from@[j as int]);
            return false;
        }
        j += 1;
    }
    assert(window =~= from@);
    true
}

/// Replaces every occurrence of `from` in `text` by `to`.
pub fn replace_all(text: &str, from: &str, to: &str) -> (r: String)
    ensures
        r@ == replaced(text@, from@, to@),
{
    let source = chars_of(text);
    let wanted = chars_of(from);
    let mut out: Vec<char> = Vec::new();
    let mut i: usize = 0;
    proof {
        assert(source@.skip(0) =~= source@);
        assert(out@ + replaced(source@, from@, to@) =~= replaced(text@, from@, to@));
    }
    while i < source.len()
        invariant
            i <= source.len(),
            source@ == text@,
            wanted@ == from@,
            replaced(text@, from@, to@) == out@ + replaced(source@.skip(i as int), from@, to@),
        decreases source.len() - i,
    {
        let ghost rest = source@.skip(i as int);
        let ghost before = out@;
        assert(rest[0] == source@[i as int]);
        if wanted.len() == 0 {
            extend_chars(&mut out, to);
            out.push(source[i]);
            proof {
                assert(rest.skip(1) =~= source@.skip(i + 1));
                assert(before + (to@ + seq![rest[0]] + replaced(rest.skip(1), from@, to@)) =~= out@
                    + replaced(rest.skip(1), from@, to@));
            }
            i += 1;
        } else if stands_at(&source, &wanted, i) {
            extend_chars(&mut out, to);
            proof {
                assert(rest.skip(from@.len() as int) =~= source@.skip(i + from@.len()));
                assert(before + (to@ + replaced(rest.skip(from@.len() as int), from@, to@)) =~= out@
                    + replaced(rest.skip(from@.len() as int), from@, to@));
            }
            i += wanted.len();
        } else {
            out.push(source[i]);
            proof {
                assert(rest.skip(1) =~= source@.skip(i + 1));
                assert(before + (seq![rest[0]] + replaced(rest.skip(1), from@, to@)) =~= out@
                    + replaced(rest.skip(1), from@, to@));
            }
            i += 1;
        }
    }
    proof {
        assert(source@.skip(i as int) =~= Seq::<char>::empty());
    }
    if wanted.len() == 0 {
        let ghost before = out@;
        extend_chars(&mut out, to);
        assert(out@ =~= before + to@);
    } else {
        assert(out@ + Seq::<char>::empty() =~= out@);
    }
    string_of(out.as_slice())
}

/// Puts replacements into a text, one after the other: each is made in what
/// the ones before it have left.
pub fn apply_replacements(content: &str, replacements: &Vec<(String, String)>) -> (r: String)
    ensures
        r@ == replaced_all(content@, pairs_view(replacements@), replacements@.len()),
{
    let mut result = String::from_str(content);
    let mut i: usize = 0;
    while i < replacements.len()
        invariant
            i <= replacements.len(),
            result@ == replaced_all(content@, pairs_view(replacements@), i as nat),
        decreases replacements.len() - i,
    {
        assert(pairs_view(replacements@)[i as int] == (
            replacements@[i as int].0@,
            replacements@[i as int].1@,
        ));
        result = replace_all(
            result.as_str(),
            replacements[i].0.as_str(),
            replacements[i].1.as_str(),
        );
        i += 1;
    }
    result
}

} // verus!
