//! Link and image extraction: which anchors of a page the crawl follows and
//! which images it reports.
//!
//! The HTML is parsed by `scraper`; this module reads the attribute values it
//! hands out and decides on each by the shape of the text alone.

use crate::crawl::text::{chars_of, contains, has_substring, parse_decimal, parse_i32};
use scraper::{Html, Selector};
use vstd::prelude::*;
use vstd::utf8::encode_utf8;

verus! {

/// The longest page body, in bytes, that is parsed. The parser keeps a text
/// in a buffer that cannot grow beyond 2^31 bytes, and it may write three
/// bytes where the body has one; a body of this length or less leaves it
/// that room.
pub const MAX_BODY_BYTES: usize = 0x2AAA_AAAA;

/// The smallest width or height, in pixels, of an image worth reporting.
pub const MIN_IMAGE_DIMENSION: i32 = 50;

/// What every followed link begins with: the site the crawl stays on.
pub open spec fn domain_prefix() -> Seq<char> {
    "https://wikipedia.org"@
}

/// What every reported image link begins with.
pub open spec fn scheme_prefix() -> Seq<char> {
    "https:"@
}

/// The reasons to drop an anchor, in the order in which they are tried.
#[derive(Clone, Copy, Debug, PartialEq, Eq, Structural)]
pub enum LinkRule {
    /// The href names the crawl's own domain.
    OwnDomain,
    /// The href names the sibling data domain.
    DataDomain,
    /// The href names the sibling media domain.
    MediaDomain,
    /// The href is absolute.
    SecureScheme,
    /// The href holds a colon, as namespaced titles do.
    Colon,
    /// The href points into a page.
    Fragment,
    /// The href holds a percent escape.
    Escape,
    /// The href carries more than one query parameter.
    QuerySeparator,
    /// The href leads to a disambiguation page.
    Disambiguation,
}

impl LinkRule {
    /// The text whose presence in an href makes the rule apply.
    pub open spec fn marker(self) -> Seq<char> {
        match self {
            LinkRule::OwnDomain => "wikipedia.org"@,
            LinkRule::DataDomain => "wikidata.org"@,
            LinkRule::MediaDomain => "wikimedia"@,
            LinkRule::SecureScheme => "https://"@,
            LinkRule::Colon => ":"@,
            LinkRule::Fragment => "#"@,
            LinkRule::Escape => "%"@,
            LinkRule::QuerySeparator => "&"@,
            LinkRule::Disambiguation => "disambiguation"@,
        }
    }

    /// The rule drops `href`.
    pub open spec fn rejects(self, href: Seq<char>) -> bool {
        has_substring(href, self.marker())
    }

    /// The rule's marker as text.
    pub fn pattern(self) -> (text: &'static str)
        ensures
            text@ == self.marker(),
    {
        match self {
            LinkRule::OwnDomain => "wikipedia.org",
            LinkRule::DataDomain => "wikidata.org",
            LinkRule::MediaDomain => "wikimedia",
            LinkRule::SecureScheme => "https://",
            LinkRule::Colon => ":",
            LinkRule::Fragment => "#",
            LinkRule::Escape => "%",
            LinkRule::QuerySeparator => "&",
            LinkRule::Disambiguation => "disambiguation",
        }
    }

    /// Whether the rule drops the href whose characters are `href`.
    pub fn applies(self, href: &Vec<char>) -> (hit: bool)
        ensures
            hit == self.rejects(href@),
    {
        let marker = chars_of(self.pattern());
        contains(href, &marker)
    }
}

/// The first rule, in their order, that drops `href`; `None` where the href
/// is followed.
pub open spec fn first_link_rejection(href: Seq<char>) -> Option<LinkRule> {
    if LinkRule::OwnDomain.rejects(href) {
        Some(LinkRule::OwnDomain)
    } else if LinkRule::DataDomain.rejects(href) {
        Some(LinkRule::DataDomain)
    } else if LinkRule::MediaDomain.rejects(href) {
        Some(LinkRule::MediaDomain)
    } else if LinkRule::SecureScheme.rejects(href) {
        Some(LinkRule::SecureScheme)
    } else if LinkRule::Colon.rejects(href) {
        Some(LinkRule::Colon)
    } else if LinkRule::Fragment.rejects(href) {
        Some(LinkRule::Fragment)
    } else if LinkRule::Escape.rejects(href) {
        Some(LinkRule::Escape)
    } else if LinkRule::QuerySeparator.rejects(href) {
        Some(LinkRule::QuerySeparator)
    } else if LinkRule::Disambiguation.rejects(href) {
        Some(LinkRule::Disambiguation)
    } else {
        None
    }
}

/// The anchor is followed: it has an href and no rule drops it.
pub open spec fn follows_anchor(href: Option<Seq<char>>) -> bool {
    href matches Some(h) && first_link_rejection(h) is None
}

/// The link that a followed anchor stands for: its href, a path on the site,
/// behind the site's prefix.
pub open spec fn page_link_for(href: Option<Seq<char>>) -> Seq<char> {
    domain_prefix() + href.unwrap()
}

/// The links followed from a page with these anchors, in the anchors' order.
pub open spec fn accepted_page_links(hrefs: Seq<Option<Seq<char>>>) -> Seq<Seq<char>> {
    hrefs.filter(|href: Option<Seq<char>>| follows_anchor(href)).map_values(
        |href: Option<Seq<char>>| page_link_for(href),
    )
}

/// What the image filter reads of one image element: the values of three
/// attributes, each absent or present.
#[derive(Clone, Debug)]
pub struct ImageTag {
    pub width: Option<String>,
    pub height: Option<String>,
    pub src: Option<String>,
}

/// An image element's attributes as sequences of characters.
pub struct ImageTagView {
    pub width: Option<Seq<char>>,
    pub height: Option<Seq<char>>,
    pub src: Option<Seq<char>>,
}

impl View for ImageTag {
    type V = ImageTagView;

    open spec fn view(&self) -> ImageTagView {
        ImageTagView {
            width: self.width.deep_view(),
            height: self.height.deep_view(),
            src: self.src.deep_view(),
        }
    }
}

impl DeepView for ImageTag {
    type V = ImageTagView;

    open spec fn deep_view(&self) -> ImageTagView {
        self@
    }
}

/// The reasons to drop an image, in the order in which they are tried.
#[derive(Clone, Copy, Debug, PartialEq, Eq, Structural)]
pub enum ImageRule {
    /// The width is a number below the minimum.
    SmallWidth,
    /// The height is a number below the minimum.
    SmallHeight,
    /// The element has no source.
    NoSource,
    /// The source is one of the site's static assets.
    StaticAsset,
    /// The source is the site's logo.
    SiteLogo,
    /// The source is a rendered formula.
    MathRendering,
    /// The source already names its protocol.
    AbsoluteUrl,
}

/// The number of pixels that a width or height attribute gives: the value of
/// a present attribute that reads as a 32-bit signed decimal number. Any
/// other text gives none, as an absent attribute does.
pub open spec fn dimension(attr: Option<Seq<char>>) -> Option<int> {
    match attr {
        Some(text) => parse_decimal(text, true, i32::MIN as int, i32::MAX as int),
        None => None,
    }
}

/// The attribute gives a number of pixels below the minimum.
pub open spec fn too_small(attr: Option<Seq<char>>) -> bool {
    dimension(attr) matches Some(pixels) && pixels < MIN_IMAGE_DIMENSION
}

/// The first rule, in their order, that drops an image with source `src`
/// for what the source holds; `None` where no such rule applies.
pub open spec fn first_source_rejection(src: Seq<char>) -> Option<ImageRule> {
    if has_substring(src, "static"@) {
        Some(ImageRule::StaticAsset)
    } else if has_substring(src, "wikipedia"@) && has_substring(src, "logo"@) {
        Some(ImageRule::SiteLogo)
    } else if has_substring(src, "math/render/svg"@) {
        Some(ImageRule::MathRendering)
    } else if has_substring(src, "http"@) {
        Some(ImageRule::AbsoluteUrl)
    } else {
        None
    }
}

/// The first rule, in their order, that drops the image; `None` where the
/// image is reported.
pub open spec fn first_image_rejection(tag: ImageTagView) -> Option<ImageRule> {
    if too_small(tag.width) {
        Some(ImageRule::SmallWidth)
    } else if too_small(tag.height) {
        Some(ImageRule::SmallHeight)
    } else {
        match tag.src {
            None => Some(ImageRule::NoSource),
            Some(src) => first_source_rejection(src),
        }
    }
}

/// The image is reported: no rule drops it.
pub open spec fn reports_image(tag: ImageTagView) -> bool {
    first_image_rejection(tag) is None
}

/// The link under which a reported image goes out: its source, which names
/// no protocol, behind `https:`.
pub open spec fn image_link_for(tag: ImageTagView) -> Seq<char> {
    scheme_prefix() + tag.src.unwrap()
}

/// The links of the images reported from a page with these image elements,
/// in the elements' order.
pub open spec fn accepted_image_links(tags: Seq<ImageTagView>) -> Seq<Seq<char>> {
    tags.filter(|tag: ImageTagView| reports_image(tag)).map_values(
        |tag: ImageTagView| image_link_for(tag),
    )
}

/// The body is short enough to be parsed: its UTF-8 bytes are no more than
/// `MAX_BODY_BYTES`.
pub open spec fn parseable(html: Seq<char>) -> bool {
    encode_utf8(html).len() <= MAX_BODY_BYTES
}

/// The href attribute of each `a` element that `scraper` finds in the
/// document parsed from `html`, in the order in which its selection yields
/// them; `None` for an anchor without href.
pub uninterp spec fn document_anchors(html: Seq<char>) -> Seq<Option<Seq<char>>>;

/// The width, height and src attributes of each `img` element that `scraper`
/// finds in the document parsed from `html`, in the order in which its
/// selection yields them.
pub uninterp spec fn document_images(html: Seq<char>) -> Seq<ImageTagView>;

/// The anchors that are read from a page body: those of the parsed document,
/// and none where the body is too long to be parsed.
pub open spec fn page_anchors(html: Seq<char>) -> Seq<Option<Seq<char>>> {
    if parseable(html) {
        document_anchors(html)
    } else {
        Seq::empty()
    }
}

/// The image elements that are read from a page body: those of the parsed
/// document, and none where the body is too long to be parsed.
pub open spec fn page_images(html: Seq<char>) -> Seq<ImageTagView> {
    if parseable(html) {
        document_images(html)
    } else {
        Seq::empty()
    }
}

/// Parses `html` with `scraper::Html::parse_document`, selects with the
/// selector `a` and reads each selected element's `href` with
/// `Element::attr`. Trusted: that the outcome depends on the text alone,
/// which is what `document_anchors` names. Nothing is claimed of which
/// anchors an HTML text has. The `requires` keeps away bodies on which the
/// parser's text buffers would overflow, which ends in a panic.
#[verifier::external_body]
fn select_anchors(html: &str) -> (hrefs: Vec<Option<String>>)
    requires
        parseable(html@),
    ensures
        hrefs.deep_view() == document_anchors(html@),
{
    let document = Html::parse_document(html);
    let selector = Selector::parse("a").expect("failed to parse CSS selector");
    let mut hrefs = Vec::new();
    for element in document.select(&selector) {
        hrefs.push(element.value().attr("href").map(String::from));
    }
    hrefs
}

/// Parses `html` with `scraper::Html::parse_document`, selects with the
/// selector `img` and reads each selected element's `width`, `height` and
/// `src` with `Element::attr`. Trusted: that the outcome depends on the text
/// alone, which is what `document_images` names. The `requires` keeps away
/// bodies on which the parser's text buffers would overflow, which ends in a
/// panic.
#[verifier::external_body]
fn select_images(html: &str) -> (tags: Vec<ImageTag>)
    requires
        parseable(html@),
    ensures
        tags.deep_view() == document_images(html@),
{
    let document = Html::parse_document(html);
    let selector = Selector::parse("img").expect("failed to parse CSS selector");
    let mut tags = Vec::new();
    for element in document.select(&selector) {
        let attrs = element.value();
        tags.push(ImageTag {
            width: attrs.attr("width").map(String::from),
            height: attrs.attr("height").map(String::from),
            src: attrs.attr("src").map(String::from),
        });
    }
    tags
}

/// Whether a page body is short enough to be parsed.
pub fn is_parseable(html: &str) -> (short: bool)
    ensures
        short == parseable(html@),
{
    html.as_bytes().len() <= MAX_BODY_BYTES
}

/// The href of each anchor of a page body; none for a body that is too long
/// to be parsed.
fn anchors_of(html: &str) -> (hrefs: Vec<Option<String>>)
    ensures
        hrefs.deep_view() == page_anchors(html@),
{
    if is_parseable(html) {
        select_anchors(html)
    } else {
        let hrefs: Vec<Option<String>> = Vec::new();
        assert(hrefs.deep_view() =~= Seq::empty());
        hrefs
    }
}

/// The image elements of a page body; none for a body that is too long to be
/// parsed.
fn images_of(html: &str) -> (tags: Vec<ImageTag>)
    ensures
        tags.deep_view() == page_images(html@),
{
    if is_parseable(html) {
        select_images(html)
    } else {
        let tags: Vec<ImageTag> = Vec::new();
        assert(tags.deep_view() =~= Seq::empty());
        tags
    }
}

/// The first rule that drops an anchor with this href, if any does.
pub fn link_rejection(href: &str) -> (rule: Option<LinkRule>)
    ensures
        rule == first_link_rejection(href@),
{
    let text = chars_of(href);
    if LinkRule::OwnDomain.applies(&text) {
        Some(LinkRule::OwnDomain)
    } else if LinkRule::DataDomain.applies(&text) {
        Some(LinkRule::DataDomain)
    } else if LinkRule::MediaDomain.applies(&text) {
        Some(LinkRule::MediaDomain)
    } else if LinkRule::SecureScheme.applies(&text) {
        Some(LinkRule::SecureScheme)
    } else if LinkRule::Colon.applies(&text) {
        Some(LinkRule::Colon)
    } else if LinkRule::Fragment.applies(&text) {
        Some(LinkRule::Fragment)
    } else if LinkRule::Escape.applies(&text) {
        Some(LinkRule::Escape)
    } else if LinkRule::QuerySeparator.applies(&text) {
        Some(LinkRule::QuerySeparator)
    } else if LinkRule::Disambiguation.applies(&text) {
        Some(LinkRule::Disambiguation)
    } else {
        None
    }
}

/// Whether a width or height attribute gives a number of pixels below the
/// minimum.
pub fn is_too_small(attr: &Option<String>) -> (small: bool)
    ensures
        small == too_small(attr.deep_view()),
{
    match attr {
        Some(text) => match parse_i32(text.as_str()) {
            Some(pixels) => pixels < MIN_IMAGE_DIMENSION,
            None => false,
        },
        None => false,
    }
}

/// The first rule that drops the image for what its source holds, if any does.
pub fn source_rejection(src: &str) -> (rule: Option<ImageRule>)
    ensures
        rule == first_source_rejection(src@),
{
    let text = chars_of(src);
    if contains(&text, &chars_of("static")) {
        Some(ImageRule::StaticAsset)
    } else if contains(&text, &chars_of("wikipedia")) && contains(&text, &chars_of("logo")) {
        Some(ImageRule::SiteLogo)
    } else if contains(&text, &chars_of("math/render/svg")) {
        Some(ImageRule::MathRendering)
    } else if contains(&text, &chars_of("http")) {
        Some(ImageRule::AbsoluteUrl)
    } else {
        None
    }
}

/// The first rule that drops the image, if any does.
pub fn image_rejection(tag: &ImageTag) -> (rule: Option<ImageRule>)
    ensures
        rule == first_image_rejection(tag@),
{
    if is_too_small(&tag.width) {
        Some(ImageRule::SmallWidth)
    } else if is_too_small(&tag.height) {
        Some(ImageRule::SmallHeight)
    } else {
        match &tag.src {
            None => Some(ImageRule::NoSource),
            Some(src) => source_rejection(src.as_str()),
        }
    }
}

/// The links to follow, given the href of each anchor of a page.
pub fn filter_page_links(hrefs: &Vec<Option<String>>) -> (links: Vec<String>)
    ensures
        links.deep_view() == accepted_page_links(hrefs.deep_view()),
{
    let mut links: Vec<String> = Vec::new();
    let mut i: usize = 0;
    assert(links.deep_view() =~= accepted_page_links(Seq::empty())) by {
        reveal(Seq::filter);
    }
    while i < hrefs.len()
        invariant
            i <= hrefs.len(),
            links.deep_view() == accepted_page_links(hrefs.deep_view().take(i as int)),
        decreases hrefs.len() - i,
    {
        let ghost before = links.deep_view();
        let ghost seen = hrefs.deep_view().take(i as int);
        let ghost href = hrefs.deep_view()[i as int];
        proof {
            let next = hrefs.deep_view().take(i + 1);
            assert(next.drop_last() =~= seen);
            reveal(Seq::filter);
            let keep = |h: Option<Seq<char>>| follows_anchor(h);
            assert(next.filter(keep) == if keep(href) {
                seen.filter(keep).push(href)
            } else {
                seen.filter(keep)
            });
            assert(accepted_page_links(next) =~= if follows_anchor(href) {
                before.push(page_link_for(href))
            } else {
                before
            });
        }
        match &hrefs[i] {
            Some(text) => {
                if link_rejection(text.as_str()).is_none() {
                    let mut link = String::from_str("https://wikipedia.org");
                    link.append(text.as_str());
                    links.push(link);
                }
            },
            None => {},
        }
        i += 1;
    }
    assert(hrefs.deep_view().take(i as int) =~= hrefs.deep_view());
    links
}

/// The image links to report, given the attributes of each image element of
/// a page.
pub fn filter_image_links(tags: &Vec<ImageTag>) -> (links: Vec<String>)
    ensures
        links.deep_view() == accepted_image_links(tags.deep_view()),
{
    let mut links: Vec<String> = Vec::new();
    let mut i: usize = 0;
    assert(links.deep_view() =~= accepted_image_links(Seq::empty())) by {
        reveal(Seq::filter);
    }
    while i < tags.len()
        invariant
            i <= tags.len(),
            links.deep_view() == accepted_image_links(tags.deep_view().take(i as int)),
        decreases tags.len() - i,
    {
        let ghost before = links.deep_view();
        let ghost seen = tags.deep_view().take(i as int);
        let ghost tag = tags.deep_view()[i as int];
        proof {
            let next = tags.deep_view().take(i + 1);
            assert(next.drop_last() =~= seen);
            reveal(Seq::filter);
            let keep = |t: ImageTagView| reports_image(t);
            assert(next.filter(keep) == if keep(tag) {
                seen.filter(keep).push(tag)
            } else {
                seen.filter(keep)
            });
            assert(accepted_image_links(next) =~= if reports_image(tag) {
                before.push(image_link_for(tag))
            } else {
                before
            });
        }
        if image_rejection(&tags[i]).is_none() {
            match &tags[i].src {
                Some(src) => {
                    let mut link = String::from_str("https:");
                    link.append(src.as_str());
                    links.push(link);
                },
                None => {},
            }
        }
        i += 1;
    }
    assert(tags.deep_view().take(i as int) =~= tags.deep_view());
    links
}

/// The links to follow from the page whose HTML is `html_content`: those of
/// its anchors that no rule drops, each behind the site's prefix, in the
/// anchors' order. A body that is too long to be parsed gives no links.
pub fn extract_relevant_wikipedia_links(html_content: &str) -> (links: Vec<String>)
    ensures
        links.deep_view() == accepted_page_links(page_anchors(html_content@)),
{
    let hrefs = anchors_of(html_content);
    filter_page_links(&hrefs)
}

/// What the crawl takes from one page.
#[derive(Clone, Debug, PartialEq, Eq)]
pub struct HTMLExtractionResult {
    /// The links to follow, in the order of their anchors.
    pub relevant_page_links: Vec<String>,
    /// The links of the images to report, in the order of their elements.
    pub relevant_image_links: Vec<String>,
}

/// An extraction result as sequences of links.
pub struct ExtractionView {
    pub page_links: Seq<Seq<char>>,
    pub image_links: Seq<Seq<char>>,
}

impl View for HTMLExtractionResult {
    type V = ExtractionView;

    open spec fn view(&self) -> ExtractionView {
        ExtractionView {
            page_links: self.relevant_page_links.deep_view(),
            image_links: self.relevant_image_links.deep_view(),
        }
    }
}

/// The page that shows every one of `links` as an image, one element each.
pub open spec fn content_html(links: Seq<Seq<char>>) -> Seq<char>
    decreases links.len(),
{
    if links.len() == 0 {
        Seq::empty()
    } else {
        content_html(links.drop_last()) + "<img src='"@ + links.last() + "'>"@
    }
}

/// `lines`, each followed by a line break.
pub open spec fn lines_text(lines: Seq<Seq<char>>) -> Seq<char>
    decreases lines.len(),
{
    if lines.len() == 0 {
        Seq::empty()
    } else {
        lines_text(lines.drop_last()) + lines.last() + "\n"@
    }
}

/// What is shown of an extraction result: a heading and the page links, a
/// heading and the image links, one to a line.
pub open spec fn info_text(result: ExtractionView) -> Seq<char> {
    "Relevant Page Links: \n"@ + lines_text(result.page_links) + "Relevant Image Links \n"@
        + lines_text(result.image_links)
}

/// Appends each of `lines` and a line break to `out`.
fn push_lines(out: &mut String, lines: &Vec<String>)
    ensures
        final(out)@ == old(out)@ + lines_text(lines.deep_view()),
{
    let mut i: usize = 0;
    while i < lines.len()
        invariant
            i <= lines.len(),
            out@ == old(out)@ + lines_text(lines.deep_view().take(i as int)),
        decreases lines.len() - i,
    {
        proof {
            let next = lines.deep_view().take(i + 1);
            assert(next.drop_last() =~= lines.deep_view().take(i as int));
        }
        out.append(lines[i].as_str());
        out.append("\n");
        i += 1;
    }
    assert(lines.deep_view().take(i as int) =~= lines.deep_view());
}

impl HTMLExtractionResult {
    /// The text that shows this result: its links and its images, one to a
    /// line under a heading each.
    pub fn info_text(&self) -> (text: String)
        ensures
            text@ == info_text(self@),
    {
        let mut text = String::from_str("Relevant Page Links: \n");
        push_lines(&mut text, &self.relevant_page_links);
        text.append("Relevant Image Links \n");
        push_lines(&mut text, &self.relevant_image_links);
        text
    }

    /// An HTML page that shows all the images of this result, in their order.
    pub fn make_content_html(&self) -> (page: String)
        ensures
            page@ == content_html(self@.image_links),
    {
        let mut page = String::new();
        let mut i: usize = 0;
        while i < self.relevant_image_links.len()
            invariant
                i <= self.relevant_image_links.len(),
                page@ == content_html(self@.image_links.take(i as int)),
            decreases self.relevant_image_links.len() - i,
        {
            proof {
                let next = self@.image_links.take(i + 1);
                assert(next.drop_last() =~= self@.image_links.take(i as int));
            }
            page.append("<img src='");
            page.append(self.relevant_image_links[i].as_str());
            page.append("'>");
            i += 1;
        }
        assert(self@.image_links.take(i as int) =~= self@.image_links);
        page
    }
}

/// What the crawl takes from the page whose HTML has the anchors `hrefs` and
/// the image elements `tags`.
pub open spec fn extraction(hrefs: Seq<Option<Seq<char>>>, tags: Seq<ImageTagView>) -> ExtractionView {
    ExtractionView {
        page_links: accepted_page_links(hrefs),
        image_links: accepted_image_links(tags),
    }
}

/// What the crawl takes from a page, given what its anchors and image
/// elements hold.
pub fn extract_from_elements(hrefs: &Vec<Option<String>>, tags: &Vec<ImageTag>) -> (result:
    HTMLExtractionResult)
    ensures
        result@ == extraction(hrefs.deep_view(), tags.deep_view()),
{
    HTMLExtractionResult {
        relevant_page_links: filter_page_links(hrefs),
        relevant_image_links: filter_image_links(tags),
    }
}

/// What is taken from the page body `html`: the links to follow and the
/// image links to report, and nothing where the body is too long to be
/// parsed.
pub open spec fn page_extraction(html: Seq<char>) -> ExtractionView {
    extraction(page_anchors(html), page_images(html))
}

/// What the crawl takes from the page whose HTML is `html_content`: the
/// links to follow and the image links to report. The same text always gives
/// the same result. A body that is too long to be parsed gives neither links
/// nor images. The page's own address, `_url`, plays no part.
#[allow(non_snake_case)]
pub fn extract_wikipedia_HTML(html_content: &str, _url: &str) -> (result: HTMLExtractionResult)
    ensures
        result@ == page_extraction(html_content@),
{
    let hrefs = anchors_of(html_content);
    let tags = images_of(html_content);
    extract_from_elements(&hrefs, &tags)
}

} // verus!
