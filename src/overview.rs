//! The overview: a summary of every entry of a document, in order.
use vstd::prelude::*;
use vstd::utf8::encode_utf8;
use crate::listing::{lines_view, listing, name_value_lines, names_view};
use crate::model::{Doc, Entry, PostData, Request, Response};
use crate::text::{chars_of, cut_text, decimal, preview, push_chars, push_decimal, push_str, string_of, PREVIEW_LEN};
use crate::urls::{parse_url, parsed_url, strip_query, url_without_query};

verus! {

/// Why an overview could not be made.
pub enum OverviewError {
    /// The request URL of this entry does not parse.
    BadUrl { entry: usize },
}

/// The URL shown for a request: the parsed URL, without its query when
/// `short_url` is set.
pub open spec fn shown_url(url: Seq<char>, short_url: bool) -> Seq<char> {
    if short_url {
        url_without_query(url)
    } else {
        match parsed_url(url) {
            Some(t) => t,
            None => Seq::empty(),
        }
    }
}

/// A listing under a heading, or nothing when there are no pairs.
pub open spec fn section(heading: Seq<char>, lines: Seq<Seq<char>>, present: bool) -> Seq<Seq<char>> {
    if present {
        seq![heading] + lines
    } else {
        Seq::empty()
    }
}

/// Length in bytes of the UTF-8 encoding of `t`, as `str::len` reports it.
pub open spec fn byte_len(t: Seq<char>) -> usize {
    encode_utf8(t).len() as usize
}

/// The lines that describe a request body.
pub open spec fn post_data_lines(pd: PostData) -> Seq<Seq<char>> {
    seq![
        "    Post Data:"@,
        "        Mime-Type:           "@ + pd.mime_type@,
        "        Length:              "@ + decimal(byte_len(pd.text@) as nat),
        "        Text:                "@ + preview(pd.text@) + seq!['\u{2026}'],
    ]
}

/// The lines for the request of entry `ix`, showing `url` as its URL.
pub open spec fn request_lines(
    ix: nat,
    req: Request,
    url: Seq<char>,
    qx: Option<Seq<Seq<char>>>,
    hx: Option<Seq<Seq<char>>>,
) -> Seq<Seq<char>> {
    seq![decimal(ix) + "/ "@ + req.method@ + " "@ + url]
        + section("    Query String:"@, listing(req.query_string@, qx), req.query_string@.len() > 0)
        + section("    Headers:"@, listing(req.headers@, hx), req.headers@.len() > 0)
        + match req.post_data {
            Some(pd) => post_data_lines(pd),
            None => Seq::empty(),
        }
}

/// The lines for the response of entry `ix`.
pub open spec fn response_lines(ix: nat, resp: Response, hx: Option<Seq<Seq<char>>>) -> Seq<Seq<char>> {
    seq![decimal(ix) + "/ RESPONSE:                 "@ + decimal(resp.status as nat) + " "@ + resp.status_text@]
        + section("    Headers:"@, listing(resp.headers@, hx), resp.headers@.len() > 0)
        + seq![
            "    Content:"@,
            "        Mime-Type:           "@ + resp.content.mime_type@,
            "        Size:                "@ + decimal(resp.content.size as nat),
            "        Text:                "@ + preview(resp.content.text@) + seq!['\u{2026}'],
        ]
}

/// The block of lines for entry `ix`, closed by three empty lines.
pub open spec fn entry_block(
    ix: nat,
    e: Entry,
    short_url: bool,
    qx: Option<Seq<Seq<char>>>,
    hx: Option<Seq<Seq<char>>>,
) -> Seq<Seq<char>> {
    request_lines(ix, e.request, shown_url(e.request.url@, short_url), qx, hx)
        + response_lines(ix, e.response, hx)
        + seq![Seq::empty(), Seq::empty(), Seq::empty()]
}

/// The blocks of the first `n` entries, in order.
pub open spec fn blocks(
    es: Seq<Entry>,
    n: nat,
    short_url: bool,
    qx: Option<Seq<Seq<char>>>,
    hx: Option<Seq<Seq<char>>>,
) -> Seq<Seq<char>>
    decreases n,
{
    if n == 0 {
        Seq::empty()
    } else {
        blocks(es, (n - 1) as nat, short_url, qx, hx) + entry_block((n - 1) as nat, es[n - 1], short_url, qx, hx)
    }
}

/// The line that opens an overview.
pub open spec fn count_line(n: nat) -> Seq<char> {
    decimal(n) + " entries"@
}

/// The whole overview of a document whose URLs all parse.
pub open spec fn overview_lines(
    doc: Doc,
    short_url: bool,
    qx: Option<Seq<Seq<char>>>,
    hx: Option<Seq<Seq<char>>>,
) -> Seq<Seq<char>> {
    seq![count_line(doc.log.entries@.len())] + blocks(doc.log.entries@, doc.log.entries@.len(), short_url, qx, hx)
}

/// Whether the request URL of entry `i` parses.
pub open spec fn url_ok(es: Seq<Entry>, i: int) -> bool {
    parsed_url(es[i].request.url@) is Some
}

/// A line made of `label` and `value`.
fn labelled(label: &str, value: &Vec<char>) -> (r: String)
    ensures
        r@ == label@ + value@,
{
    let mut out = chars_of(label);
    push_chars(&mut out, value);
    string_of(&out)
}

/// A line made of `label` and the decimal notation of `n`.
fn labelled_number(label: &str, n: u64) -> (r: String)
    ensures
        r@ == label@ + decimal(n as nat),
{
    let mut out = chars_of(label);
    push_decimal(&mut out, n);
    string_of(&out)
}

/// A preview line of `text`, closed by an ellipsis.
fn text_line(text: &String) -> (r: String)
    ensures
        r@ == "        Text:                "@ + preview(text@) + seq!['\u{2026}'],
{
    let mut out = chars_of("        Text:                ");
    let cut = cut_text(text.as_str(), PREVIEW_LEN);
    push_str(&mut out, cut.as_str());
    out.push('\u{2026}');
    assert(out@ =~= "        Text:                "@ + preview(text@) + seq!['\u{2026}']);
    string_of(&out)
}

/// Appends `more` to `out`.
fn push_lines(out: &mut Vec<String>, more: Vec<String>)
    ensures
        lines_view(final(out)@) == lines_view(old(out)@) + lines_view(more@),
{
    let mut more = more;
    let ghost m = more@;
    out.append(&mut more);
    assert(lines_view(out@) =~= lines_view(old(out)@) + lines_view(m));
}

/// Appends a heading and the listing of `nvs`, when `nvs` is not empty.
fn push_section(out: &mut Vec<String>, heading: &str, nvs: &Vec<crate::model::NameValue>, excludes: Option<&Vec<String>>)
    ensures
        lines_view(final(out)@) == lines_view(old(out)@) + section(heading@, listing(nvs@, names_view(excludes)), nvs@.len() > 0),
{
    if nvs.len() > 0 {
        let h = String::from_str(heading);
        out.push(h);
        let ls = name_value_lines(nvs, excludes);
        let ghost mid = out@;
        push_lines(out, ls);
        assert(lines_view(mid) =~= lines_view(old(out)@).push(heading@));
        assert(lines_view(out@) =~= lines_view(old(out)@) + section(heading@, listing(nvs@, names_view(excludes)), true));
    } else {
        assert(lines_view(out@) =~= lines_view(old(out)@) + section(heading@, listing(nvs@, names_view(excludes)), false));
    }
}

/// The lines for the request of entry `ix` (see `request_lines`).
pub fn format_request(
    ix: usize,
    req: &Request,
    url: &String,
    qx: Option<&Vec<String>>,
    hx: Option<&Vec<String>>,
) -> (r: Vec<String>)
    ensures
        lines_view(r@) == request_lines(ix as nat, *req, url@, names_view(qx), names_view(hx)),
{
    let mut out: Vec<String> = Vec::new();
    let mut first: Vec<char> = Vec::new();
    push_decimal(&mut first, ix as u64);
    push_str(&mut first, "/ ");
    push_str(&mut first, req.method.as_str());
    push_str(&mut first, " ");
    push_str(&mut first, url.as_str());
    out.push(string_of(&first));
    assert(lines_view(out@) =~= seq![decimal(ix as nat) + "/ "@ + req.method@ + " "@ + url@]);
    push_section(&mut out, "    Query String:", &req.query_string, qx);
    push_section(&mut out, "    Headers:", &req.headers, hx);
    let ghost before = lines_view(out@);
    match &req.post_data {
        Some(pd) => {
            out.push(String::from_str("    Post Data:"));
            out.push(labelled("        Mime-Type:           ", &chars_of(pd.mime_type.as_str())));
            let len = pd.text.as_str().len();
            out.push(labelled_number("        Length:              ", len as u64));
            out.push(text_line(&pd.text));
            assert(lines_view(out@) =~= before + post_data_lines(*pd));
        },
        None => {
            assert(lines_view(out@) =~= before + Seq::<Seq<char>>::empty());
        },
    }
    out
}

/// The lines for the response of entry `ix` (see `response_lines`).
pub fn format_response(ix: usize, resp: &Response, hx: Option<&Vec<String>>) -> (r: Vec<String>)
    ensures
        lines_view(r@) == response_lines(ix as nat, *resp, names_view(hx)),
{
    let mut out: Vec<String> = Vec::new();
    let mut first: Vec<char> = Vec::new();
    push_decimal(&mut first, ix as u64);
    push_str(&mut first, "/ RESPONSE:                 ");
    push_decimal(&mut first, resp.status as u64);
    push_str(&mut first, " ");
    push_str(&mut first, resp.status_text.as_str());
    out.push(string_of(&first));
    assert(lines_view(out@) =~= seq![decimal(ix as nat) + "/ RESPONSE:                 "@ + decimal(resp.status as nat) + " "@ + resp.status_text@]);
    push_section(&mut out, "    Headers:", &resp.headers, hx);
    let ghost before = lines_view(out@);
    out.push(String::from_str("    Content:"));
    out.push(labelled("        Mime-Type:           ", &chars_of(resp.content.mime_type.as_str())));
    out.push(labelled_number("        Size:                ", resp.content.size as u64));
    out.push(text_line(&resp.content.text));
    assert(lines_view(out@) =~= response_lines(ix as nat, *resp, names_view(hx)));
    out
}

/// The block of lines for entry `ix` (see `entry_block`); the request URL
/// must parse.
pub fn format_entry(
    ix: usize,
    e: &Entry,
    short_url: bool,
    qx: Option<&Vec<String>>,
    hx: Option<&Vec<String>>,
) -> (r: Vec<String>)
    requires
        parsed_url(e.request.url@) is Some,
    ensures
        lines_view(r@) == entry_block(ix as nat, *e, short_url, names_view(qx), names_view(hx)),
{
    let url = if short_url {
        strip_query(e.request.url.as_str())
    } else {
        match parse_url(e.request.url.as_str()) {
            Some(t) => t,
            None => String::new(),
        }
    };
    assert(url@ == shown_url(e.request.url@, short_url));
    let mut out = format_request(ix, &e.request, &url, qx, hx);
    let resp = format_response(ix, &e.response, hx);
    push_lines(&mut out, resp);
    let ghost before = lines_view(out@);
    out.push(String::new());
    out.push(String::new());
    out.push(String::new());
    assert(lines_view(out@) =~= before + seq![Seq::<char>::empty(), Seq::empty(), Seq::empty()]);
    out
}

/// The overview of `doc`: a line with the number of entries, then one block
/// per entry in document order. The URL line of a block shows the parsed
/// request URL, without its query when `short_url` is set; query strings
/// and headers are listed sorted by name, without the names in
/// `query_string_excludes` and `headers_excludes`.
///
/// Fails as a whole, naming the first such entry, when a request URL does
/// not parse.
pub fn overview(
    doc: &Doc,
    short_url: bool,
    query_string_excludes: Option<&Vec<String>>,
    headers_excludes: Option<&Vec<String>>,
) -> (r: Result<Vec<String>, OverviewError>)
    ensures
        r is Ok <==> forall|i: int| 0 <= i < doc.log.entries@.len() ==> url_ok(doc.log.entries@, i),
        r matches Ok(lines) ==> lines_view(lines@) == overview_lines(
            *doc,
            short_url,
            names_view(query_string_excludes),
            names_view(headers_excludes),
        ),
        r matches Err(OverviewError::BadUrl { entry }) ==> entry < doc.log.entries@.len()
            && !url_ok(doc.log.entries@, entry as int)
            && forall|i: int| 0 <= i < entry ==> url_ok(doc.log.entries@, i),
{
    let es = &doc.log.entries;
    let ghost qx = names_view(query_string_excludes);
    let ghost hx = names_view(headers_excludes);
    let mut out: Vec<String> = Vec::new();
    let mut head: Vec<char> = Vec::new();
    push_decimal(&mut head, es.len() as u64);
    push_str(&mut head, " entries");
    out.push(string_of(&head));
    assert(lines_view(out@) =~= seq![count_line(es@.len())]);
    let mut i: usize = 0;
    while i < es.len()
        invariant
            i <= es.len(),
            es == &doc.log.entries,
            qx == names_view(query_string_excludes),
            hx == names_view(headers_excludes),
            forall|j: int| 0 <= j < i ==> url_ok(es@, j),
            lines_view(out@) == seq![count_line(es@.len())] + blocks(es@, i as nat, short_url, qx, hx),
        decreases es.len() - i,
    {
        let e = &es[i];
        match parse_url(e.request.url.as_str()) {
            Some(_) => {},
            None => {
                assert(!url_ok(es@, i as int));
                return Err(OverviewError::BadUrl { entry: i });
            },
        }
        let block = format_entry(i, e, short_url, query_string_excludes, headers_excludes);
        let ghost before = lines_view(out@);
        push_lines(&mut out, block);
        assert(lines_view(out@) =~= seq![count_line(es@.len())] + blocks(es@, (i + 1) as nat, short_url, qx, hx));
        i = i + 1;
    }
    Ok(out)
}

/// The URL line of a block depends on the entry and `short_url` alone: the
/// exclude lists change the listings, never the URL shown.
pub proof fn lemma_url_line_ignores_excludes(
    ix: nat,
    e: Entry,
    short_url: bool,
    qx1: Option<Seq<Seq<char>>>,
    hx1: Option<Seq<Seq<char>>>,
    qx2: Option<Seq<Seq<char>>>,
    hx2: Option<Seq<Seq<char>>>,
)
    ensures
        entry_block(ix, e, short_url, qx1, hx1)[0] == entry_block(ix, e, short_url, qx2, hx2)[0],
        entry_block(ix, e, short_url, qx1, hx1)[0] == decimal(ix) + "/ "@ + e.request.method@ + " "@
            + shown_url(e.request.url@, short_url),
{
}

proof fn lemma_blocks_flatten(
    es: Seq<Entry>,
    n: nat,
    short_url: bool,
    qx: Option<Seq<Seq<char>>>,
    hx: Option<Seq<Seq<char>>>,
)
    ensures
        blocks(es, n, short_url, qx, hx) == Seq::new(n, |i: int| entry_block(i as nat, es[i], short_url, qx, hx)).flatten(),
    decreases n,
{
    if n > 0 {
        lemma_blocks_flatten(es, (n - 1) as nat, short_url, qx, hx);
        let f = |i: int| entry_block(i as nat, es[i], short_url, qx, hx);
        let prev = Seq::new((n - 1) as nat, f);
        assert(Seq::new(n, f) =~= prev.push(f(n - 1)));
        prev.lemma_flatten_push(f(n - 1));
    }
}

/// An overview opens with the number of entries, followed by exactly one
/// block per entry, in document order.
pub proof fn lemma_overview_shape(
    doc: Doc,
    short_url: bool,
    qx: Option<Seq<Seq<char>>>,
    hx: Option<Seq<Seq<char>>>,
)
    ensures
        overview_lines(doc, short_url, qx, hx)[0] == count_line(doc.log.entries@.len()),
        overview_lines(doc, short_url, qx, hx) == seq![count_line(doc.log.entries@.len())] + Seq::new(
            doc.log.entries@.len(),
            |i: int| entry_block(i as nat, doc.log.entries@[i], short_url, qx, hx),
        ).flatten(),
{
    lemma_blocks_flatten(doc.log.entries@, doc.log.entries@.len(), short_url, qx, hx);
}

} // verus!
