//! Reading a course overview page: its title and its section links.

use vstd::prelude::*;
use crate::text::{trim, trim_spec};

verus! {

/// Why a course page could not be read.
#[derive(Debug, Clone, Copy, PartialEq, Eq, Structural)]
pub enum ParseError {
    /// No page-header heading was found.
    MissingTitle,
    /// A section anchor carries no `href`.
    MissingHref,
}

/// A course as its overview page describes it.
#[derive(Debug, Clone, PartialEq, Eq)]
pub struct CourseDescriptor {
    pub name: String,
    pub sections: Vec<String>,
}

/// The mathematical content of a `CourseDescriptor`.
pub struct CourseDescriptorView {
    pub name: Seq<char>,
    pub sections: Seq<Seq<char>>,
}

impl View for CourseDescriptor {
    type V = CourseDescriptorView;

    open spec fn view(&self) -> CourseDescriptorView {
        CourseDescriptorView { name: self.name@, sections: self.sections.deep_view() }
    }
}

/// The selector of the page-header heading.
pub open spec fn title_selector_spec() -> Seq<char> {
    "h1.page-header"@
}

/// The selector of the section anchors.
pub open spec fn section_selector_spec() -> Seq<char> {
    "ul.topics li.section.main > div.content > h3.sectionname > a"@
}

/// The attribute that holds a section's address.
pub open spec fn link_attribute_spec() -> Seq<char> {
    "href"@
}

/// For the document `html` and the CSS selector `selector`: the text nodes
/// below each matching element, elements and nodes in document order; `None`
/// where the selector is not valid CSS.
pub uninterp spec fn selected_text_nodes(html: Seq<char>, selector: Seq<char>) -> Option<
    Seq<Seq<Seq<char>>>,
>;

/// For the document `html`, the CSS selector `selector` and the attribute
/// `name`: that attribute's value on each matching element, if it has one,
/// in document order; `None` where the selector is not valid CSS.
pub uninterp spec fn selected_attribute(
    html: Seq<char>,
    selector: Seq<char>,
    name: Seq<char>,
) -> Option<Seq<Option<Seq<char>>>>;

/// Runs `scraper::Selector::parse` on `selector`, `scraper::Html::parse_document`
/// on `html` and `Html::select` on the two, and hands out the text nodes that
/// `ElementRef::text` yields for each match. Trusted: the result is the named
/// value `selected_text_nodes` of the two strings, nothing more is claimed.
#[verifier::external_body]
fn select_text_nodes(html: &str, selector: &str) -> (r: Option<Vec<Vec<String>>>)
    ensures
        r.deep_view() == selected_text_nodes(html@, selector@),
{
    let compiled = scraper::Selector::parse(selector).ok()?;
    let document = scraper::Html::parse_document(html);
    Some(
        document.select(&compiled).map(
            |element| element.text().map(|node| node.to_string()).collect(),
        ).collect(),
    )
}

/// Runs `scraper::Selector::parse` on `selector`, `scraper::Html::parse_document`
/// on `html` and `Html::select` on the two, and hands out what `Element::attr`
/// returns for `name` on each match. Trusted: the result is the named value
/// `selected_attribute` of the three strings, nothing more is claimed.
#[verifier::external_body]
fn select_attribute(html: &str, selector: &str, name: &str) -> (r: Option<Vec<Option<String>>>)
    ensures
        r.deep_view() == selected_attribute(html@, selector@, name@),
{
    let compiled = scraper::Selector::parse(selector).ok()?;
    let document = scraper::Html::parse_document(html);
    Some(
        document.select(&compiled).map(
            |element| element.value().attr(name).map(|value| value.to_string()),
        ).collect(),
    )
}

/// The matches of a selection; a selector that is not valid matches nothing.
pub open spec fn matches_or_none<T>(found: Option<Seq<T>>) -> Seq<T> {
    match found {
        Some(items) => items,
        None => Seq::empty(),
    }
}

/// The first text node of a heading, or the empty text where it has none.
pub open spec fn first_text(nodes: Seq<Seq<char>>) -> Seq<char> {
    if nodes.len() > 0 {
        nodes[0]
    } else {
        Seq::empty()
    }
}

/// Every anchor has an address.
pub open spec fn all_present(links: Seq<Option<Seq<char>>>) -> bool {
    forall|i: int| 0 <= i < links.len() ==> (#[trigger] links[i]).is_some()
}

/// The course that a page describes, given the text nodes of its page-header
/// headings and the addresses of its section anchors, both in document order.
///
/// The name is the first text node of the first heading, trimmed; the
/// sections are the addresses as they stand.
pub open spec fn page_of(headings: Seq<Seq<Seq<char>>>, links: Seq<Option<Seq<char>>>) -> Result<
    CourseDescriptorView,
    ParseError,
> {
    if headings.len() == 0 {
        Err(ParseError::MissingTitle)
    } else if !all_present(links) {
        Err(ParseError::MissingHref)
    } else {
        Ok(
            CourseDescriptorView {
                name: trim_spec(first_text(headings[0])),
                sections: Seq::new(links.len(), |i: int| links[i].unwrap()),
            },
        )
    }
}

/// Whether an executable result is the one that `expected` describes.
pub open spec fn page_result_is(
    r: Result<CourseDescriptor, ParseError>,
    expected: Result<CourseDescriptorView, ParseError>,
) -> bool {
    match r {
        Ok(page) => expected == Ok::<CourseDescriptorView, ParseError>(page@),
        Err(e) => expected == Err::<CourseDescriptorView, ParseError>(e),
    }
}

/// Builds the course descriptor from what was selected on a page: the text
/// nodes of each page-header heading and the address of each section anchor.
pub fn page_from_matches(headings: &Vec<Vec<String>>, links: &Vec<Option<String>>) -> (r: Result<
    CourseDescriptor,
    ParseError,
>)
    ensures
        page_result_is(r, page_of(headings.deep_view(), links.deep_view())),
{
    if headings.len() == 0 {
        return Err(ParseError::MissingTitle);
    }
    let mut sections: Vec<String> = Vec::new();
    let mut i: usize = 0;
    while i < links.len()
        invariant
            headings.len() > 0,
            i <= links.len(),
            sections.len() == i,
            forall|j: int| 0 <= j < i ==> (#[trigger] links[j]).is_some(),
            forall|j: int| 0 <= j < i ==> (#[trigger] sections[j])@ == links[j].unwrap()@,
        decreases links.len() - i,
    {
        match &links[i] {
            Some(address) => {
                sections.push(address.clone());
            },
            None => {
                proof {
                    let lv = links.deep_view();
                    assert(headings.deep_view().len() > 0);
                    assert(lv.len() == links.len());
                    assert(lv[i as int] == links[i as int].deep_view());
                    assert(lv[i as int].is_none());
                    assert(!all_present(lv));
                }
                return Err(ParseError::MissingHref);
            },
        }
        i += 1;
    }
    let first = &headings[0];
    let name = if first.len() > 0 {
        trim(first[0].as_str())
    } else {
        trim("")
    };
    proof {
        let hv = headings.deep_view();
        let lv = links.deep_view();
        assert(hv[0] == first.deep_view());
        if first.len() > 0 {
            assert(first.deep_view()[0] == first[0]@);
        } else {
            assert(""@ =~= Seq::<char>::empty()) by {
                reveal_strlit("");
            }
        }
        assert forall|j: int| 0 <= j < lv.len() implies (#[trigger] lv[j]).is_some() by {
            assert(links[j].is_some());
        }
        assert(sections.deep_view() =~= Seq::new(lv.len(), |j: int| lv[j].unwrap())) by {
            assert forall|j: int| 0 <= j < lv.len() implies sections.deep_view()[j]
                == lv[j].unwrap() by {
                assert(sections[j]@ == links[j].unwrap()@);
            }
        }
    }
    Ok(CourseDescriptor { name, sections })
}

/// The course that the document `html` describes.
pub open spec fn extract_spec(html: Seq<char>) -> Result<CourseDescriptorView, ParseError> {
    page_of(
        matches_or_none(selected_text_nodes(html, title_selector_spec())),
        matches_or_none(
            selected_attribute(html, section_selector_spec(), link_attribute_spec()),
        ),
    )
}

/// Reads a course overview page: the course's name from the first
/// page-header heading, and the address of every section anchor, in
/// document order.
pub fn extract(document_html: &str) -> (r: Result<CourseDescriptor, ParseError>)
    ensures
        page_result_is(r, extract_spec(document_html@)),
{
    let headings = match select_text_nodes(document_html, "h1.page-header") {
        Some(found) => found,
        None => Vec::new(),
    };
    let links = match select_attribute(
        document_html,
        "ul.topics li.section.main > div.content > h3.sectionname > a",
        "href",
    ) {
        Some(found) => found,
        None => Vec::new(),
    };
    proof {
        assert(headings.deep_view() =~= matches_or_none(
            selected_text_nodes(document_html@, title_selector_spec()),
        ));
        assert(links.deep_view() =~= matches_or_none(
            selected_attribute(document_html@, section_selector_spec(), link_attribute_spec()),
        ));
    }
    page_from_matches(&headings, &links)
}

/// A page with at least one page-header heading and an address on every
/// section anchor yields a course: its name is the heading's first text
/// trimmed, and it has exactly one section per anchor, in the anchors' order.
pub proof fn lemma_well_formed_page(headings: Seq<Seq<Seq<char>>>, links: Seq<Option<Seq<char>>>)
    requires
        headings.len() > 0,
        all_present(links),
    ensures
        page_of(headings, links).is_ok(),
        page_of(headings, links).unwrap().name == trim_spec(first_text(headings[0])),
        page_of(headings, links).unwrap().sections.len() == links.len(),
        forall|i: int|
            0 <= i < links.len() ==> #[trigger] page_of(headings, links).unwrap().sections[i]
                == links[i].unwrap(),
{
}

/// A page without a page-header heading yields `MissingTitle`, whatever its
/// anchors are.
pub proof fn lemma_missing_title(links: Seq<Option<Seq<char>>>)
    ensures
        page_of(Seq::empty(), links) == Err::<CourseDescriptorView, ParseError>(
            ParseError::MissingTitle,
        ),
{
}

} // verus!
