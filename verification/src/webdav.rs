//! The WebDAV protocol client's parsing and normalization.
//!
//! A listing is a PROPFIND round-trip: the request path and body are
//! built here, the asynchronous shell sends them, and the multistatus
//! XML that comes back is parsed here — a streaming, tag-based pass
//! over the XML events, not a document tree. For each `<response>`
//! element the parser accumulates the href, a collection flag, the
//! content length and the last-modified date, and emits one entry
//! when the element closes. Each raw entry is normalized: the href is
//! percent-decoded, the queried collection's own entry is skipped,
//! the name is the href's last segment, and a directory never
//! carries a size.

use vstd::prelude::*;

use crate::intparse::{parse_i64, spec_parse_i64};
use crate::models::{FileEntry, FileEntryV};
use crate::vpath::{
    join_entry_path, last_segment, spec_join_entry_path, spec_last_segment,
    spec_strip_leading_slash, spec_trim_trailing_slashes, str_eq, strip_leading_slash,
    trim_trailing_slashes,
};

verus! {

/// The fixed body sent with every PROPFIND request: the four
/// properties the parser reads.
pub const PROPFIND_BODY: &'static str = "<?xml version=\"1.0\" encoding=\"utf-8\" ?>\n<D:propfind xmlns:D=\"DAV:\">\n  <D:prop>\n    <D:displayname/>\n    <D:getcontentlength/>\n    <D:getlastmodified/>\n    <D:resourcetype/>\n  </D:prop>\n</D:propfind>";

/// The multistatus response could not be parsed as XML.
#[derive(Clone, Copy, Debug, PartialEq, Eq, Structural)]
pub struct XmlParseError;

/// One event of the streaming XML pass, reduced to its local tag
/// name or text.
pub enum XmlEvent {
    /// An opening tag.
    Start(String),
    /// A self-closing tag, such as `<collection/>`.
    Empty(String),
    /// A closing tag.
    End(String),
    /// Character data, unescaped.
    Text(String),
    /// End of the document.
    Eof,
    /// Any other well-formed event; the parser ignores it.
    Other,
    /// A syntax error in the document.
    Malformed,
}

#[verifier::external_type_specification]
#[verifier::external_body]
#[verifier::reject_recursive_types(R)]
pub struct ExXmlReader<R>(quick_xml::Reader<R>);

/// What quick_xml's reader yields for the document `s` (configured to
/// trim whitespace around text), reduced to [`XmlEvent`] and cut off
/// at the end of the document or at its first syntax error: the
/// events before the terminating `Eof`, with `Malformed` standing for
/// the error, if one occurs, as the last element. A function of the
/// document text alone.
pub uninterp spec fn xml_events(s: Seq<char>) -> Seq<XmlEvent>;

/// Relies on quick_xml::Reader::from_str and Config::trim_text: the
/// streaming reader over `s` whose events [`xml_events`] names,
/// positioned before the first of them.
#[verifier::external_body]
fn propfind_reader<'a>(s: &'a str) -> quick_xml::Reader<&'a [u8]> {
    let mut reader = quick_xml::Reader::from_str(s);
    reader.config_mut().trim_text(true);
    reader
}

/// A streaming source of the XML events of one document: the reader,
/// and (in ghost) the document text and how many of its events have
/// been yielded.
struct XmlEventSource<'a> {
    reader: quick_xml::Reader<&'a [u8]>,
    source: Ghost<Seq<char>>,
    pos: Ghost<int>,
}

impl<'a> XmlEventSource<'a> {
    /// The text of the document being read.
    spec fn source_text(&self) -> Seq<char> {
        self.source@
    }

    /// How many events have been yielded so far.
    spec fn position(&self) -> int {
        self.pos@
    }

    spec fn wf(&self) -> bool {
        0 <= self.pos@ <= xml_events(self.source@).len()
    }

    /// Opens the source over `s`, at the first of its events. This is
    /// the module's only constructor, so in every value the ghost
    /// text and position describe the reader the value holds.
    fn open(s: &'a str) -> (r: XmlEventSource<'a>)
        ensures
            r.source_text() == s@,
            r.position() == 0,
    {
        let reader = propfind_reader(s);
        let ghost src: Seq<char> = s@;
        let ghost zero: int = 0;
        XmlEventSource { reader, source: Ghost(src), pos: Ghost(zero) }
    }

    /// Relies on quick_xml::Reader::read_event (with
    /// escape::unescape for text): the reader's events are a function
    /// of the document text alone, named by [`xml_events`]; each call
    /// yields the next one, and `Eof` once a document that had no
    /// syntax error is exhausted. The contract reads the ghost fields
    /// as describing the held reader, which [`Self::open`], the only
    /// constructor, makes true of every value.
    #[verifier::external_body]
    fn next(&mut self) -> (ev: XmlEvent)
        requires
            old(self).wf(),
            old(self).position() == xml_events(old(self).source_text()).len()
                ==> !xml_events(old(self).source_text()).contains(XmlEvent::Malformed),
        ensures
            final(self).source_text() == old(self).source_text(),
            final(self).wf(),
            old(self).position() < xml_events(old(self).source_text()).len() ==> {
                &&& ev == xml_events(old(self).source_text())[old(self).position()]
                &&& !(ev is Eof)
                &&& final(self).position() == old(self).position() + 1
            },
            old(self).position() == xml_events(old(self).source_text()).len() ==> {
                &&& ev is Eof
                &&& final(self).position() == old(self).position()
            },
    {
        match self.reader.read_event() {
            Ok(quick_xml::events::Event::Start(e)) => XmlEvent::Start(e.local_name().as_ref().to_string()),
            Ok(quick_xml::events::Event::Empty(e)) => XmlEvent::Empty(e.local_name().as_ref().to_string()),
            Ok(quick_xml::events::Event::End(e)) => XmlEvent::End(e.local_name().as_ref().to_string()),
            Ok(quick_xml::events::Event::Text(e)) => match quick_xml::escape::unescape(&e) {
                Ok(t) => XmlEvent::Text(t.into_owned()),
                Err(_) => XmlEvent::Other,
            },
            Ok(quick_xml::events::Event::Eof) => XmlEvent::Eof,
            Ok(_) => XmlEvent::Other,
            Err(_) => XmlEvent::Malformed,
        }
    }
}

/// What urlencoding::decode returns for `s`: the decoded text, or
/// nothing when the decoded bytes are not UTF-8. A function of the
/// input alone.
pub uninterp spec fn percent_decoded(s: Seq<char>) -> Option<Seq<char>>;

/// Relies on urlencoding::decode, named by [`percent_decoded`].
#[verifier::external_body]
fn percent_decode(s: &str) -> (r: Option<String>)
    ensures
        match r {
            Some(t) => percent_decoded(s@) == Some(t@),
            None => percent_decoded(s@) is None,
        },
{
    match urlencoding::decode(s) {
        Ok(t) => Some(t.into_owned()),
        Err(_) => None,
    }
}

/// What chrono's RFC 2822 parser returns for `s`: the date's Unix
/// seconds, or nothing when the text is not such a date. A function
/// of the input alone.
pub uninterp spec fn rfc2822_epoch(s: Seq<char>) -> Option<i64>;

/// Relies on chrono::DateTime::parse_from_rfc2822 and
/// DateTime::timestamp, named by [`rfc2822_epoch`].
#[verifier::external_body]
fn parse_rfc2822_seconds(s: &str) -> (r: Option<i64>)
    ensures
        r == rfc2822_epoch(s@),
{
    match chrono::DateTime::parse_from_rfc2822(s) {
        Ok(dt) => Some(dt.timestamp()),
        Err(_) => None,
    }
}

/// The path sent to the server for a virtual path: the base URL's
/// path without trailing slashes, a `/`, and the virtual path
/// without its leading slash.
pub fn webdav_request_path(base_url_path: &str, path: &str) -> (r: String)
    ensures
        r@ == spec_trim_trailing_slashes(base_url_path@) + "/"@ + spec_strip_leading_slash(path@),
{
    let base = trim_trailing_slashes(base_url_path);
    let rel = strip_leading_slash(path);
    base.to_owned().concat("/").concat(rel)
}

/// Normalization of one raw multistatus entry, over the named
/// percent-decoding: skip undecodable hrefs, the queried collection
/// itself and empty names; a directory carries no size and a missing
/// date reads as the epoch.
pub open spec fn spec_process_entry(
    href: Seq<char>,
    base_path: Seq<char>,
    is_collection: bool,
    size: Option<i64>,
    modified_time: Option<i64>,
    base_url_path: Seq<char>,
) -> Option<FileEntryV> {
    match percent_decoded(href) {
        None => None,
        Some(decoded) => {
            let normalized_base = spec_trim_trailing_slashes(base_path);
            let normalized_href = spec_trim_trailing_slashes(decoded);
            if normalized_href == normalized_base || normalized_href.len() == 0 || decoded
                == base_url_path || decoded == spec_trim_trailing_slashes(base_url_path) {
                None
            } else {
                let name = spec_last_segment(normalized_href);
                if name.len() == 0 {
                    None
                } else {
                    Some(
                        FileEntryV {
                            name,
                            path: spec_join_entry_path(base_path, name),
                            is_dir: is_collection,
                            size: if !is_collection {
                                size
                            } else {
                                None
                            },
                            modified_time: match modified_time {
                                Some(m) => m,
                                None => 0,
                            },
                        },
                    )
                }
            }
        },
    }
}

/// Normalizes one raw entry accumulated from a `<response>` element,
/// or skips it.
pub fn process_webdav_entry(
    href: &str,
    base_path: &str,
    is_collection: bool,
    size: Option<i64>,
    modified_time: Option<i64>,
    base_url_path: &str,
) -> (r: Option<FileEntry>)
    ensures
        match (
            r,
            spec_process_entry(href@, base_path@, is_collection, size, modified_time, base_url_path@),
        ) {
            (Some(e), Some(v)) => e@ == v,
            (None, None) => true,
            _ => false,
        },
{
    let decoded = match percent_decode(href) {
        Some(d) => d,
        None => {
            return None;
        },
    };
    let normalized_base = trim_trailing_slashes(base_path);
    let normalized_href = trim_trailing_slashes(decoded.as_str());
    if str_eq(normalized_href, normalized_base) || normalized_href.unicode_len() == 0 || str_eq(
        decoded.as_str(),
        base_url_path,
    ) || str_eq(decoded.as_str(), trim_trailing_slashes(base_url_path)) {
        return None;
    }
    let name = last_segment(normalized_href);
    if name.unicode_len() == 0 {
        return None;
    }
    let path = join_entry_path(base_path, name);
    Some(
        FileEntry {
            name: name.to_owned(),
            path,
            is_dir: is_collection,
            size: if !is_collection {
                size
            } else {
                None
            },
            modified_time: match modified_time {
                Some(m) => m,
                None => 0,
            },
        },
    )
}

/// The mathematical state of the multistatus parser.
pub struct ParserModel {
    pub in_response: bool,
    pub in_href: bool,
    pub in_contentlength: bool,
    pub in_lastmodified: bool,
    pub current_href: Option<Seq<char>>,
    pub current_is_collection: bool,
    pub current_size: Option<i64>,
    pub current_modified: Option<i64>,
    pub entries: Seq<FileEntryV>,
}

/// The entries of `s`, as mathematical values.
pub open spec fn view_entries(s: Seq<FileEntry>) -> Seq<FileEntryV> {
    s.map_values(|e: FileEntry| e@)
}

/// The streaming multistatus parser: element state flags, the entry
/// being accumulated, and the entries emitted so far.
pub struct PropfindParser {
    pub in_response: bool,
    pub in_href: bool,
    pub in_contentlength: bool,
    pub in_lastmodified: bool,
    pub current_href: Option<String>,
    pub current_is_collection: bool,
    pub current_size: Option<i64>,
    pub current_modified: Option<i64>,
    pub entries: Vec<FileEntry>,
}

impl View for PropfindParser {
    type V = ParserModel;

    open spec fn view(&self) -> ParserModel {
        ParserModel {
            in_response: self.in_response,
            in_href: self.in_href,
            in_contentlength: self.in_contentlength,
            in_lastmodified: self.in_lastmodified,
            current_href: match self.current_href {
                Some(h) => Some(h@),
                None => None,
            },
            current_is_collection: self.current_is_collection,
            current_size: self.current_size,
            current_modified: self.current_modified,
            entries: view_entries(self.entries@),
        }
    }
}

/// The initial parser state: outside any element, nothing
/// accumulated, no entries.
pub open spec fn spec_parser_init() -> ParserModel {
    ParserModel {
        in_response: false,
        in_href: false,
        in_contentlength: false,
        in_lastmodified: false,
        current_href: None,
        current_is_collection: false,
        current_size: None,
        current_modified: None,
        entries: Seq::empty(),
    }
}

/// Effect of an opening (or self-closing) tag: `<response>` enters a
/// fresh entry; inside one, the known property tags raise their
/// flags and `<collection/>` marks a directory.
pub open spec fn spec_open_tag(m: ParserModel, tag: Seq<char>) -> ParserModel {
    if tag == "response"@ {
        ParserModel {
            in_response: true,
            current_href: None,
            current_is_collection: false,
            current_size: None,
            current_modified: None,
            ..m
        }
    } else if !m.in_response {
        m
    } else if tag == "href"@ {
        ParserModel { in_href: true, ..m }
    } else if tag == "collection"@ {
        ParserModel { current_is_collection: true, ..m }
    } else if tag == "getcontentlength"@ {
        ParserModel { in_contentlength: true, ..m }
    } else if tag == "getlastmodified"@ {
        ParserModel { in_lastmodified: true, ..m }
    } else {
        m
    }
}

/// Effect of a closing tag: `</response>` emits the accumulated
/// entry (normalized, possibly skipped); the property tags lower
/// their flags.
pub open spec fn spec_close_tag(
    m: ParserModel,
    tag: Seq<char>,
    base_path: Seq<char>,
    base_url_path: Seq<char>,
) -> ParserModel {
    if tag == "response"@ {
        let closed = ParserModel { in_response: false, current_href: None, ..m };
        match m.current_href {
            Some(h) => match spec_process_entry(
                h,
                base_path,
                m.current_is_collection,
                m.current_size,
                m.current_modified,
                base_url_path,
            ) {
                Some(v) => ParserModel { entries: m.entries.push(v), ..closed },
                None => closed,
            },
            None => closed,
        }
    } else if tag == "href"@ {
        ParserModel { in_href: false, ..m }
    } else if tag == "getcontentlength"@ {
        ParserModel { in_contentlength: false, ..m }
    } else if tag == "getlastmodified"@ {
        ParserModel { in_lastmodified: false, ..m }
    } else {
        m
    }
}

/// Effect of character data: it lands in whichever property is open,
/// href first; a content length is parsed as a decimal and a date as
/// RFC 2822.
pub open spec fn spec_text(m: ParserModel, text: Seq<char>) -> ParserModel {
    if m.in_href {
        ParserModel { current_href: Some(text), ..m }
    } else if m.in_contentlength {
        ParserModel { current_size: spec_parse_i64(text), ..m }
    } else if m.in_lastmodified {
        ParserModel { current_modified: rfc2822_epoch(text), ..m }
    } else {
        m
    }
}

/// One step of the parser on one event.
pub open spec fn spec_step(
    m: ParserModel,
    ev: XmlEvent,
    base_path: Seq<char>,
    base_url_path: Seq<char>,
) -> ParserModel {
    match ev {
        XmlEvent::Start(name) => spec_open_tag(m, name@),
        XmlEvent::Empty(name) => spec_open_tag(m, name@),
        XmlEvent::End(name) => spec_close_tag(m, name@, base_path, base_url_path),
        XmlEvent::Text(t) => spec_text(m, t@),
        XmlEvent::Eof => m,
        XmlEvent::Other => m,
        XmlEvent::Malformed => m,
    }
}

/// The parser state after a sequence of events, from the initial
/// state.
pub open spec fn spec_run(
    events: Seq<XmlEvent>,
    base_path: Seq<char>,
    base_url_path: Seq<char>,
) -> ParserModel
    decreases events.len(),
{
    if events.len() == 0 {
        spec_parser_init()
    } else {
        spec_step(
            spec_run(events.drop_last(), base_path, base_url_path),
            events.last(),
            base_path,
            base_url_path,
        )
    }
}

/// What normalization guarantees of every emitted entry: a
/// non-empty name, a path that joins the queried base path with that
/// name, and no size on a directory.
pub open spec fn spec_entry_wf(e: FileEntryV, base_path: Seq<char>) -> bool {
    &&& e.name.len() > 0
    &&& e.path == spec_join_entry_path(base_path, e.name)
    &&& (e.is_dir ==> e.size is None)
}

/// Every entry a parser run emits is well-formed in the sense of
/// [`spec_entry_wf`]: entries enter the run only through
/// [`spec_process_entry`], which enforces it.
pub proof fn lemma_run_entries_wf(
    events: Seq<XmlEvent>,
    base_path: Seq<char>,
    base_url_path: Seq<char>,
)
    ensures
        forall|i: int|
            0 <= i < spec_run(events, base_path, base_url_path).entries.len() ==> spec_entry_wf(
                #[trigger] spec_run(events, base_path, base_url_path).entries[i],
                base_path,
            ),
    decreases events.len(),
{
    if events.len() > 0 {
        lemma_run_entries_wf(events.drop_last(), base_path, base_url_path);
    }
}

impl PropfindParser {
    pub fn new() -> (r: PropfindParser)
        ensures
            r@ == spec_parser_init(),
    {
        let r = PropfindParser {
            in_response: false,
            in_href: false,
            in_contentlength: false,
            in_lastmodified: false,
            current_href: None,
            current_is_collection: false,
            current_size: None,
            current_modified: None,
            entries: Vec::new(),
        };
        proof {
            assert(r@.entries =~= spec_parser_init().entries);
        }
        r
    }

    /// Advances the parser by one event.
    pub fn on_event(&mut self, ev: &XmlEvent, base_path: &str, base_url_path: &str)
        ensures
            final(self)@ == spec_step(old(self)@, *ev, base_path@, base_url_path@),
    {
        match ev {
            XmlEvent::Start(name) => self.open_tag(name.as_str()),
            XmlEvent::Empty(name) => self.open_tag(name.as_str()),
            XmlEvent::End(name) => self.close_tag(name.as_str(), base_path, base_url_path),
            XmlEvent::Text(t) => self.on_text(t.as_str()),
            XmlEvent::Eof => (),
            XmlEvent::Other => (),
            XmlEvent::Malformed => (),
        }
    }

    fn open_tag(&mut self, tag: &str)
        ensures
            final(self)@ == spec_open_tag(old(self)@, tag@),
    {
        if str_eq(tag, "response") {
            self.in_response = true;
            self.current_href = None;
            self.current_is_collection = false;
            self.current_size = None;
            self.current_modified = None;
        } else if !self.in_response {
        } else if str_eq(tag, "href") {
            self.in_href = true;
        } else if str_eq(tag, "collection") {
            self.current_is_collection = true;
        } else if str_eq(tag, "getcontentlength") {
            self.in_contentlength = true;
        } else if str_eq(tag, "getlastmodified") {
            self.in_lastmodified = true;
        }
    }

    fn close_tag(&mut self, tag: &str, base_path: &str, base_url_path: &str)
        ensures
            final(self)@ == spec_close_tag(old(self)@, tag@, base_path@, base_url_path@),
    {
        if str_eq(tag, "response") {
            self.in_response = false;
            let entry = match &self.current_href {
                Some(h) => process_webdav_entry(
                    h.as_str(),
                    base_path,
                    self.current_is_collection,
                    self.current_size,
                    self.current_modified,
                    base_url_path,
                ),
                None => None,
            };
            self.current_href = None;
            match entry {
                Some(e) => {
                    let ghost entries0 = self.entries@;
                    let ghost ev = e@;
                    self.entries.push(e);
                    proof {
                        assert(view_entries(self.entries@) =~= view_entries(entries0).push(ev));
                    }
                },
                None => (),
            }
        } else if str_eq(tag, "href") {
            self.in_href = false;
        } else if str_eq(tag, "getcontentlength") {
            self.in_contentlength = false;
        } else if str_eq(tag, "getlastmodified") {
            self.in_lastmodified = false;
        }
    }

    fn on_text(&mut self, text: &str)
        ensures
            final(self)@ == spec_text(old(self)@, text@),
    {
        if self.in_href {
            self.current_href = Some(text.to_owned());
        } else if self.in_contentlength {
            self.current_size = parse_i64(text);
        } else if self.in_lastmodified {
            self.current_modified = parse_rfc2822_seconds(text);
        }
    }
}

/// Runs the parser over a ready sequence of events: the result is
/// exactly [`spec_run`] of those events.
pub fn parse_events(events: &Vec<XmlEvent>, base_path: &str, base_url_path: &str) -> (entries: Vec<
    FileEntry,
>)
    ensures
        view_entries(entries@) == spec_run(events@, base_path@, base_url_path@).entries,
{
    let mut parser = PropfindParser::new();
    let n = events.len();
    let mut i: usize = 0;
    proof {
        assert(events@.subrange(0, 0) =~= Seq::<XmlEvent>::empty());
    }
    while i < n
        invariant
            i <= n,
            n == events@.len(),
            parser@ == spec_run(events@.subrange(0, i as int), base_path@, base_url_path@),
        decreases n - i,
    {
        proof {
            assert(events@.subrange(0, i + 1).drop_last() =~= events@.subrange(0, i as int));
            assert(events@.subrange(0, i + 1).last() == events@[i as int]);
        }
        parser.on_event(&events[i], base_path, base_url_path);
        i = i + 1;
    }
    proof {
        assert(events@.subrange(0, n as int) =~= events@);
    }
    parser.entries
}

/// Parses a multistatus response body into the normalized entries:
/// the streaming pass over the document's events, exactly as
/// [`spec_run`] describes it for the event stream [`xml_events`] of
/// the document. An XML syntax error — and only one — fails the
/// whole parse, discarding any entries accumulated before it, as the
/// transport's other failures do.
pub fn parse_propfind_response(xml: &str, base_path: &str, base_url_path: &str) -> (r: Result<
    Vec<FileEntry>,
    XmlParseError,
>)
    ensures
        match r {
            Ok(entries) => {
                &&& view_entries(entries@) == spec_run(
                    xml_events(xml@),
                    base_path@,
                    base_url_path@,
                ).entries
                &&& !xml_events(xml@).contains(XmlEvent::Malformed)
                &&& forall|i: int|
                    0 <= i < entries@.len() ==> spec_entry_wf(
                        #[trigger] entries@[i]@,
                        base_path@,
                    )
            },
            Err(e) => xml_events(xml@).contains(XmlEvent::Malformed),
        },
{
    let ghost evs = xml_events(xml@);
    let mut source = XmlEventSource::open(xml);
    let mut parser = PropfindParser::new();
    let mut done = false;
    proof {
        assert(evs.take(0) =~= Seq::<XmlEvent>::empty());
    }
    while !done
        invariant
            source.source_text() == xml@,
            evs == xml_events(xml@),
            source.wf(),
            parser@ == spec_run(evs.take(source.position()), base_path@, base_url_path@),
            forall|j: int| 0 <= j < source.position() ==> evs[j] != XmlEvent::Malformed,
            done ==> source.position() == evs.len(),
        decreases evs.len() - source.position() + (if done {
            0int
        } else {
            1int
        }),
    {
        proof {
            if source.position() == evs.len() && evs.contains(XmlEvent::Malformed) {
                let i = choose|i: int| 0 <= i < evs.len() && evs[i] == XmlEvent::Malformed;
                assert(evs[i] != XmlEvent::Malformed);
            }
        }
        let ghost pos0 = source.position();
        let ev = source.next();
        match &ev {
            XmlEvent::Eof => {
                done = true;
            },
            XmlEvent::Malformed => {
                proof {
                    assert(evs[pos0] == ev);
                    assert(evs.contains(XmlEvent::Malformed));
                }
                return Err(XmlParseError);
            },
            _ => {
                parser.on_event(&ev, base_path, base_url_path);
                proof {
                    assert(evs.take(pos0 + 1).drop_last() =~= evs.take(pos0));
                    assert(evs.take(pos0 + 1).last() == evs[pos0]);
                }
            },
        }
    }
    let entries = parser.entries;
    proof {
        assert(evs.take(evs.len() as int) =~= evs);
        if evs.contains(XmlEvent::Malformed) {
            let i = choose|i: int| 0 <= i < evs.len() && evs[i] == XmlEvent::Malformed;
            assert(evs[i] != XmlEvent::Malformed);
        }
        lemma_run_entries_wf(evs, base_path@, base_url_path@);
        assert forall|i: int| 0 <= i < entries@.len() implies spec_entry_wf(
            #[trigger] entries@[i]@,
            base_path@,
        ) by {
            assert(entries@[i]@ == view_entries(entries@)[i]);
        }
    }
    Ok(entries)
}

/// The single entry of a metadata PROPFIND: the last entry parsed,
/// or nothing when the response named none.
pub fn metadata_from_entries(entries: Vec<FileEntry>) -> (r: Option<FileEntry>)
    ensures
        match r {
            Some(e) => entries@.len() > 0 && e == entries@.last(),
            None => entries@.len() == 0,
        },
{
    let mut entries = entries;
    entries.pop()
}

} // verus!
