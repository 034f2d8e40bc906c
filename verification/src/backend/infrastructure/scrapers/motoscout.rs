//! motoscout24.ch: the rendered search page lists one `<article>` per advert.
use vstd::prelude::*;
use scraper::{Html, Selector};
use crate::models::motorcycle::{Day, MotorcycleListing, fingerprint_of, ListingStatus};
use crate::text::{
    after_last, all_digits, ascii_digits, chars_of, char_is_ascii_digit, contains_seq, contains_str, digits_of,
    last_piece, parse_u16, parse_u32, parse_u64, parse_unsigned, trim, trimmed,
};

verus! {

pub struct MotoscoutScraper {
    pub category: String,
    pub url: String,
}

/// The number spelled by the ASCII digits of a text, if any, when it fits in a `u32`.
pub open spec fn price_of(s: Seq<char>) -> Option<u32> {
    match parse_unsigned(digits_of(s)) {
        Some(v) => if v <= u32::MAX { Some(v as u32) } else { None },
        None => None,
    }
}

impl MotoscoutScraper {
    pub fn new(category: &str, url: &str) -> (r: Self)
        ensures
            r.category@ == category@,
            r.url@ == url@,
    {
        MotoscoutScraper { category: category.to_owned(), url: url.to_owned() }
    }

    /// The price in a text such as "CHF 10'490.–": its digits read as one
    /// number (10490).
    pub fn parse_price(s: &str) -> (r: Option<u32>)
        ensures
            r == price_of(s@),
    {
        let cleaned = ascii_digits(s);
        parse_u32(cleaned.as_str())
    }

    /// The mileage in a text such as "5'310 km" (5310), 0 when there is none.
    pub fn parse_mileage(s: &str) -> (r: u32)
        ensures
            r == match price_of(s@) {
                Some(v) => v,
                None => 0,
            },
    {
        let cleaned = ascii_digits(s);
        match parse_u32(cleaned.as_str()) {
            Some(v) => v,
            None => 0,
        }
    }

    /// The ad ID at the end of a detail link such as
    /// "/de/d/yamaha-xsr-125-legacy-20287260": what follows the last hyphen.
    pub fn extract_id(url: &str) -> (r: String)
        ensures
            r@ == after_last(url@, '-'),
    {
        last_piece(url, '-')
    }
}

/// What the paragraphs of an article say so far: price, mileage, year,
/// location and seller.
pub type ArticleFacts = (u32, u32, u16, Seq<char>, Seq<char>);

/// How one paragraph changes what is known: a "CHF" text is the price, a "km"
/// text the mileage, a four-digit text the year; power ratings and image
/// counters ("1 / 7") are skipped; the first other non-blank text is taken
/// for the seller, with "CH" as location.
pub open spec fn read_paragraph(f: ArticleFacts, text: Seq<char>) -> ArticleFacts {
    if contains_seq(text, "CHF"@) {
        (match price_of(text) { Some(p) => p, None => 0 }, f.1, f.2, f.3, f.4)
    } else if contains_seq(text, "km"@) {
        (f.0, match price_of(text) { Some(k) => k, None => 0 }, f.2, f.3, f.4)
    } else if text.len() == 4 && all_digits(text) {
        (f.0, f.1, match parse_unsigned(text) { Some(y) => if y <= u16::MAX { y as u16 } else { 0 }, None => 0 }, f.3, f.4)
    } else if contains_seq(text, "PS"@) || contains_seq(text, "kW"@) {
        f
    } else if contains_seq(text, "/"@) {
        f
    } else if trimmed(text).len() > 0 {
        if f.3.len() == 0 { (f.0, f.1, f.2, "CH"@, trimmed(text)) } else { f }
    } else {
        f
    }
}

pub open spec fn read_paragraphs(ps: Seq<Seq<char>>) -> ArticleFacts
    decreases ps.len(),
{
    if ps.len() == 0 {
        (0, 0, 0, Seq::empty(), Seq::empty())
    } else {
        read_paragraph(read_paragraphs(ps.drop_last()), ps.last())
    }
}

pub open spec fn views(v: Seq<String>) -> Seq<Seq<char>> {
    v.map_values(|s: String| s@)
}

/// Whether `i` is the first link pointing at a detail page.
pub open spec fn first_detail_link(hrefs: Seq<Seq<char>>, i: int) -> bool {
    &&& 0 <= i < hrefs.len()
    &&& contains_seq(hrefs[i], "/de/d/"@)
    &&& forall|j: int| 0 <= j < i ==> !contains_seq(#[trigger] hrefs[j], "/de/d/"@)
}

/// Whether `l` is what an article with heading `title`, links `hrefs` and
/// paragraphs `ps` gives: the first detail link makes the ad ID and the URL,
/// the paragraphs price, mileage, year, and then the last two paragraphs
/// (when there are two) the location and the seller.
pub open spec fn listing_of_article(
    category: Seq<char>,
    title: Seq<char>,
    hrefs: Seq<Seq<char>>,
    ps: Seq<Seq<char>>,
    today: Day,
    l: MotorcycleListing,
) -> bool {
    let i = choose|i: int| first_detail_link(hrefs, i);
    let link = hrefs[i];
    let f = read_paragraphs(ps);
    let location = if ps.len() >= 2 { trimmed(ps.last()) } else { f.3 };
    let seller = if ps.len() >= 2 { trimmed(ps[ps.len() - 2]) } else { f.4 };
    &&& l.listing_id == match parse_unsigned(after_last(link, '-')) {
        Some(v) => if v <= u64::MAX { v as u64 } else { 0 },
        None => 0,
    }
    &&& l.url@ == "https://www.motoscout24.ch"@ + link
    &&& l.title@ == trimmed(title)
    &&& l.category@ == category
    &&& l.price_chf == f.0
    &&& l.original_price_chf == f.0
    &&& l.mileage_km == f.1
    &&& l.year == f.2
    &&& l.location@ == location
    &&& l.seller_name@ == seller
    &&& l.kanton@ == Seq::<char>::empty()
    &&& !l.is_private
    &&& l.status == ListingStatus::Active
    &&& l.first_seen == today
    &&& l.last_seen == today
    &&& l.fingerprint@ == fingerprint_of(trimmed(title), f.2, f.1)
    &&& l.price_score == 0
    &&& l.price_label@ == Seq::<char>::empty()
    &&& l.score_peers == 0
    &&& l.previous_listing_id is None
    &&& l.generation is None
}

/// Whether an article gives a listing: a heading, a detail link and a price.
pub open spec fn article_kept(title: Seq<char>, hrefs: Seq<Seq<char>>, ps: Seq<Seq<char>>) -> bool {
    &&& trimmed(title).len() > 0
    &&& exists|i: int| first_detail_link(hrefs, i)
    &&& read_paragraphs(ps).0 != 0
}

impl MotoscoutScraper {
    /// The listing of one article of the rendered search page, on day
    /// `today`: `title` is the text of its first heading (empty without one),
    /// `hrefs` its link targets and `paragraphs` the texts of its paragraphs.
    pub fn listing_from_article(
        &self,
        title: &str,
        hrefs: &Vec<String>,
        paragraphs: &Vec<String>,
        today: Day,
    ) -> (r: Option<MotorcycleListing>)
        ensures
            match r {
                Some(l) => article_kept(title@, views(hrefs@), views(paragraphs@))
                    && listing_of_article(self.category@, title@, views(hrefs@), views(paragraphs@), today, l),
                None => !article_kept(title@, views(hrefs@), views(paragraphs@)),
            },
    {
        let t = trim(title).to_owned();
        let mut k: usize = 0;
        while k < hrefs.len() && !contains_str(hrefs[k].as_str(), "/de/d/")
            invariant
                k <= hrefs.len(),
                forall|j: int| 0 <= j < k ==> !contains_seq(#[trigger] views(hrefs@)[j], "/de/d/"@),
            decreases hrefs.len() - k,
        {
            k = k + 1;
        }
        let ghost ps = views(paragraphs@);
        let mut price: u32 = 0;
        let mut mileage: u32 = 0;
        let mut year: u16 = 0;
        let mut location = String::new();
        let mut seller = String::new();
        let mut i: usize = 0;
        while i < paragraphs.len()
            invariant
                i <= paragraphs.len(),
                ps == views(paragraphs@),
                read_paragraphs(ps.take(i as int)) == (price, mileage, year, location@, seller@),
            decreases paragraphs.len() - i,
        {
            assert(ps.take(i + 1).drop_last() =~= ps.take(i as int));
            let text = paragraphs[i].as_str();
            assert(ps.take(i + 1).last() == text@);
            if contains_str(text, "CHF") {
                price = match Self::parse_price(text) {
                    Some(p) => p,
                    None => 0,
                };
            } else if contains_str(text, "km") {
                mileage = Self::parse_mileage(text);
            } else if Self::is_year_text(text) {
                year = match parse_u16(text) {
                    Some(y) => y,
                    None => 0,
                };
            } else if contains_str(text, "PS") || contains_str(text, "kW") {
            } else if contains_str(text, "/") {
            } else if trim(text).unicode_len() > 0 {
                if location.as_str().unicode_len() == 0 {
                    seller = trim(text).to_owned();
                    location = "CH".to_owned();
                }
            }
            i = i + 1;
        }
        assert(ps.take(paragraphs.len() as int) =~= ps);
        if paragraphs.len() >= 2 {
            let n = paragraphs.len();
            location = trim(paragraphs[n - 1].as_str()).to_owned();
            seller = trim(paragraphs[n - 2].as_str()).to_owned();
            assert(ps.last() == paragraphs@[n - 1]@);
            assert(ps[ps.len() - 2] == paragraphs@[n - 2]@);
        }
        if t.as_str().unicode_len() == 0 {
            return None;
        }
        if k == hrefs.len() {
            proof {
                assert forall|i: int| !first_detail_link(views(hrefs@), i) by {}
            }
            return None;
        }
        if price == 0 {
            proof {
                assert(first_detail_link(views(hrefs@), k as int));
            }
            return None;
        }
        let link = hrefs[k].as_str();
        proof {
            assert(first_detail_link(views(hrefs@), k as int));
            let c = choose|c: int| first_detail_link(views(hrefs@), c);
            assert(c == k) by {
                if c < k {
                } else if c > k {
                    assert(!contains_seq(views(hrefs@)[k as int], "/de/d/"@));
                }
            }
        }
        let id_text = Self::extract_id(link);
        let id = match parse_u64(id_text.as_str()) {
            Some(v) => v,
            None => 0,
        };
        let url = "https://www.motoscout24.ch".to_owned().concat(link);
        Some(MotorcycleListing::new(
            id,
            today,
            self.category.clone(),
            t,
            price,
            mileage,
            year,
            url,
            location,
            String::new(),
            false,
            seller,
        ))
    }

    /// A four-character text of ASCII digits.
    fn is_year_text(text: &str) -> (r: bool)
        ensures
            r == (text@.len() == 4 && all_digits(text@)),
    {
        let v = chars_of(text);
        if v.len() != 4 {
            return false;
        }
        let mut i: usize = 0;
        while i < 4
            invariant
                i <= 4,
                v.len() == 4,
                v@ == text@,
                forall|j: int| 0 <= j < i ==> crate::text::is_ascii_digit(#[trigger] v@[j]),
            decreases 4 - i,
        {
            if !char_is_ascii_digit(v[i]) {
                return false;
            }
            i = i + 1;
        }
        true
    }
}

/// What a page element holds for the listing: the texts of its headings, the
/// target of each of its links (`None` for a link without one) and the texts
/// of its paragraphs, each in the order of the parsed tree.
pub struct PageBlock {
    pub headings: Vec<String>,
    pub links: Vec<Option<String>>,
    pub paragraphs: Vec<String>,
}

pub open spec fn opt_views(v: Seq<Option<String>>) -> Seq<Option<Seq<char>>> {
    v.map_values(|o: Option<String>| match o {
        Some(s) => Some(s@),
        None => None,
    })
}

pub open spec fn block_view(b: PageBlock) -> (Seq<Seq<char>>, Seq<Option<Seq<char>>>, Seq<Seq<char>>) {
    (views(b.headings@), opt_views(b.links@), views(b.paragraphs@))
}

pub open spec fn block_views(v: Seq<PageBlock>) -> Seq<(Seq<Seq<char>>, Seq<Option<Seq<char>>>, Seq<Seq<char>>)> {
    v.map_values(|b: PageBlock| block_view(b))
}

/// What the `scraper` crate finds in an HTML document: for each element that
/// the CSS selector `outer` matches, in the order `Html::select` walks the
/// parsed tree, the text under each
/// element inside it that `heading` matches, the attribute `attr` of each one
/// that `link` matches, and the text under each one that `para` matches.
pub uninterp spec fn html_blocks(
    html: Seq<char>,
    outer: Seq<char>,
    heading: Seq<char>,
    link: Seq<char>,
    attr: Seq<char>,
    para: Seq<char>,
) -> Seq<(Seq<Seq<char>>, Seq<Option<Seq<char>>>, Seq<Seq<char>>)>;

/// Parses `html` with `scraper::Html::parse_document` and, for each element
/// that `outer` selects (`Html::select`), collects what `ElementRef::select`,
/// `ElementRef::text` and `ElementRef::attr` give for the inner selectors.
/// Trusted: the result is the named function `html_blocks` of the arguments;
/// an invalid selector (`Selector::parse` fails) gives no block at all.
#[verifier::external_body]
fn select_blocks(html: &str, outer: &str, heading: &str, link: &str, attr: &str, para: &str) -> (r: Vec<PageBlock>)
    ensures
        block_views(r@) == html_blocks(html@, outer@, heading@, link@, attr@, para@),
{
    let doc = Html::parse_document(html);
    match (Selector::parse(outer), Selector::parse(heading), Selector::parse(link), Selector::parse(para)) {
        (Ok(o), Ok(h), Ok(a), Ok(p)) => doc.select(&o).map(|e| PageBlock {
            headings: e.select(&h).map(|x| x.text().collect()).collect(),
            links: e.select(&a).map(|x| x.attr(attr).map(String::from)).collect(),
            paragraphs: e.select(&p).map(|x| x.text().collect()).collect(),
        }).collect(),
        _ => Vec::new(),
    }
}

/// The link targets that are there, in order.
pub open spec fn present(v: Seq<Option<Seq<char>>>) -> Seq<Seq<char>>
    decreases v.len(),
{
    if v.len() == 0 {
        Seq::empty()
    } else {
        match v.last() {
            Some(s) => present(v.drop_last()).push(s),
            None => present(v.drop_last()),
        }
    }
}

/// The heading of an article: the text of its first heading, empty without one.
pub open spec fn block_title(headings: Seq<Seq<char>>) -> Seq<char> {
    if headings.len() > 0 { headings[0] } else { Seq::empty() }
}

/// Whether `r` is, in order, the listings that the articles `blocks` give:
/// one for each article that `article_kept` admits, as `listing_of_article` says.
pub open spec fn page_listings(
    category: Seq<char>,
    blocks: Seq<(Seq<Seq<char>>, Seq<Option<Seq<char>>>, Seq<Seq<char>>)>,
    today: Day,
    r: Seq<MotorcycleListing>,
) -> bool
    decreases blocks.len(),
{
    if blocks.len() == 0 {
        r.len() == 0
    } else {
        let b = blocks.last();
        let title = block_title(b.0);
        let hrefs = present(b.1);
        if article_kept(title, hrefs, b.2) {
            &&& r.len() > 0
            &&& listing_of_article(category, title, hrefs, b.2, today, r.last())
            &&& page_listings(category, blocks.drop_last(), today, r.drop_last())
        } else {
            page_listings(category, blocks.drop_last(), today, r)
        }
    }
}

impl MotoscoutScraper {
    /// The listings that the articles of a rendered search page give, in
    /// page order, on day `today`.
    pub fn listings_from_blocks(&self, blocks: &Vec<PageBlock>, today: Day) -> (r: Vec<MotorcycleListing>)
        ensures
            page_listings(self.category@, block_views(blocks@), today, r@),
    {
        let ghost bv = block_views(blocks@);
        let mut out: Vec<MotorcycleListing> = Vec::new();
        let mut i: usize = 0;
        while i < blocks.len()
            invariant
                i <= blocks.len(),
                bv == block_views(blocks@),
                page_listings(self.category@, bv.take(i as int), today, out@),
            decreases blocks.len() - i,
        {
            let b = &blocks[i];
            assert(bv.take(i + 1).drop_last() =~= bv.take(i as int));
            assert(bv.take(i + 1).last() == block_view(*b));
            let title: &str = if b.headings.len() > 0 { b.headings[0].as_str() } else { "" };
            proof {
                if b.headings.len() == 0 {
                    reveal_strlit("");
                }
            }
            assert(title@ == block_title(views(b.headings@)));
            let mut hrefs: Vec<String> = Vec::new();
            let mut j: usize = 0;
            while j < b.links.len()
                invariant
                    j <= b.links.len(),
                    views(hrefs@) == present(opt_views(b.links@).take(j as int)),
                decreases b.links.len() - j,
            {
                assert(opt_views(b.links@).take(j + 1).drop_last() =~= opt_views(b.links@).take(j as int));
                match &b.links[j] {
                    Some(h) => {
                        hrefs.push(h.clone());
                        assert(views(hrefs@) =~= views(hrefs@.drop_last()).push(h@));
                    },
                    None => {},
                }
                j = j + 1;
            }
            assert(opt_views(b.links@).take(b.links.len() as int) =~= opt_views(b.links@));
            let got = self.listing_from_article(title, &hrefs, &b.paragraphs, today);
            let ghost before = out@;
            match got {
                Some(l) => {
                    out.push(l);
                    assert(out@.drop_last() =~= before);
                },
                None => {},
            }
            i = i + 1;
        }
        assert(bv.take(blocks.len() as int) =~= bv);
        out
    }
}

impl MotoscoutScraper {
    /// The listings of a rendered search page, in page order, on day
    /// `today`: each `<article>` gives its first `<h2>`, the `href` of its
    /// `<a>` elements and the texts of its `<p>` elements to
    /// `listing_from_article`.
    pub fn listings_from_page(&self, html: &str, today: Day) -> (r: Vec<MotorcycleListing>)
        ensures
            page_listings(
                self.category@,
                html_blocks(html@, "article"@, "h2"@, "a"@, "href"@, "p"@),
                today,
                r@,
            ),
    {
        let blocks = select_blocks(html, "article", "h2", "a", "href", "p");
        self.listings_from_blocks(&blocks, today)
    }
}

} // verus!
