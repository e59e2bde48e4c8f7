//! The descriptor scan: which `RelativePath` values of a project's markup name
//! audio samples.

use vstd::prelude::*;
use vstd::utf8::{decode_utf8, valid_utf8};
use vstd::string::StringSliceAdditionalSpecFns;
use crate::bytes::bytes_equal;
use crate::path::{is_audio_bytes, is_audio_path};
use quick_xml::events::Event;
use quick_xml::Reader;

verus! {

/// What a self-closing element holds in its `Value` attribute.
pub enum ValueAttr {
    /// The attribute's raw bytes.
    Found(Vec<u8>),
    /// The element has no `Value` attribute.
    Absent,
    /// The element's attributes could not be read.
    Malformed,
}

/// One markup event, reduced to what the scan reads.
pub enum Token {
    /// An element opens; its name.
    Start(Vec<u8>),
    /// An element closes; its name.
    End(Vec<u8>),
    /// A self-closing element: its name and its `Value` attribute.
    Empty(Vec<u8>, ValueAttr),
    /// Text, comments and every other event.
    Other,
}

/// Why a descriptor could not be scanned.
#[derive(Debug, PartialEq, Eq, Structural)]
pub enum ParseError {
    /// The markup is not well formed.
    Markup,
    /// The attributes of a sample path element could not be read.
    Attribute,
    /// A sample path is not valid UTF-8.
    Text,
}

/// A scanned project: its directory and the sample paths it refers to, in
/// ascending order and without repeats.
pub struct AbletonProject {
    pub project_dir: String,
    pub samples: Vec<String>,
}

pub open spec fn sample_ref_tag() -> Seq<u8> {
    "SampleRef".spec_bytes()
}

pub open spec fn file_ref_tag() -> Seq<u8> {
    "FileRef".spec_bytes()
}

pub open spec fn relative_path_tag() -> Seq<u8> {
    "RelativePath".spec_bytes()
}

/// The scan's state: inside a `SampleRef`, inside a `FileRef`, and the sample
/// paths accepted so far.
pub type ScanState = (bool, bool, Set<Seq<u8>>);

/// One event applied to the scan's state. The two context flags are plain
/// booleans: an opening tag sets one, the closing tag of that name clears it.
pub open spec fn scan_step(s: Result<ScanState, ParseError>, t: Token) -> Result<ScanState, ParseError> {
    match s {
        Err(e) => Err(e),
        Ok((in_sample, in_file, found)) => match t {
            Token::Start(n) => if n@ == sample_ref_tag() {
                Ok((true, in_file, found))
            } else if n@ == file_ref_tag() {
                Ok((in_sample, true, found))
            } else {
                Ok((in_sample, in_file, found))
            },
            Token::End(n) => if n@ == sample_ref_tag() {
                Ok((false, in_file, found))
            } else if n@ == file_ref_tag() {
                Ok((in_sample, false, found))
            } else {
                Ok((in_sample, in_file, found))
            },
            Token::Empty(n, v) => if in_sample && in_file && n@ == relative_path_tag() {
                match v {
                    ValueAttr::Found(b) => if !valid_utf8(b@) {
                        Err(ParseError::Text)
                    } else if is_audio_path(b@) {
                        Ok((in_sample, in_file, found.insert(b@)))
                    } else {
                        Ok((in_sample, in_file, found))
                    },
                    ValueAttr::Absent => Ok((in_sample, in_file, found)),
                    ValueAttr::Malformed => Err(ParseError::Attribute),
                }
            } else {
                Ok((in_sample, in_file, found))
            },
            _ => Ok((in_sample, in_file, found)),
        },
    }
}

/// The scan of a sequence of events, from outside every element.
pub open spec fn scan(toks: Seq<Token>) -> Result<ScanState, ParseError>
    decreases toks.len(),
{
    if toks.len() == 0 {
        Ok((false, false, Set::empty()))
    } else {
        scan_step(scan(toks.drop_last()), toks.last())
    }
}

/// The sample paths that a successful scan of `toks` accepts.
pub open spec fn scanned_paths(toks: Seq<Token>) -> Set<Seq<u8>> {
    scan(toks)->Ok_0.2
}

/// The order of two paths, by their components: `-1` when `a` comes first,
/// `0` when they name the same path, `1` when `b` comes first.
pub uninterp spec fn path_order(a: Seq<char>, b: Seq<char>) -> int;

/// Relies on <Path as Ord>::cmp, which compares two paths component by
/// component; as an `Ord`, swapping the arguments reverses the result.
#[verifier::external_body]
fn compare_paths(a: &str, b: &str) -> (r: i8)
    ensures
        r as int == path_order(a@, b@),
        -(r as int) == path_order(b@, a@),
        r == -1 || r == 0 || r == 1,
{
    match std::path::Path::new(a).cmp(std::path::Path::new(b)) {
        std::cmp::Ordering::Less => -1,
        std::cmp::Ordering::Equal => 0,
        std::cmp::Ordering::Greater => 1,
    }
}

pub open spec fn text_views(v: Seq<String>) -> Seq<Seq<char>> {
    v.map_values(|s: String| s@)
}

/// Every path comes before the next one, by components.
pub open spec fn path_ascending(v: Seq<Seq<char>>) -> bool {
    forall|i: int| 0 <= i < v.len() - 1 ==> #[trigger] path_order(v[i], v[i + 1]) == -1
}

/// `s` is the decoded text of one of `paths`.
pub open spec fn decoded_from(s: Seq<char>, paths: Set<Seq<u8>>) -> bool {
    exists|p: Seq<u8>| #[trigger] paths.contains(p) && s == decode_utf8(p)
}

/// Some entry of `v` is the decoded text of `p`, or names the same path.
pub open spec fn represented(p: Seq<u8>, v: Seq<Seq<char>>) -> bool {
    exists|i: int| 0 <= i < v.len() && (#[trigger] v[i] == decode_utf8(p) || path_order(decode_utf8(p), v[i]) == 0)
}

/// `samples` lists the decoded texts of `paths` in ascending path order, one
/// for each path: texts that name the same path are listed once.
pub open spec fn lists_paths(samples: Seq<String>, paths: Set<Seq<u8>>) -> bool {
    &&& path_ascending(text_views(samples))
    &&& forall|i: int| 0 <= i < samples.len() ==> decoded_from(#[trigger] text_views(samples)[i], paths)
    &&& forall|p: Seq<u8>| #[trigger] paths.contains(p) ==> represented(p, text_views(samples))
}

/// Relies on std::str::from_utf8: it succeeds exactly on valid UTF-8, and then
/// holds the decoded characters.
#[verifier::external_body]
fn decode_text(b: &[u8]) -> (r: Option<&str>)
    ensures
        r is Some <==> valid_utf8(b@),
        r is Some ==> r->0@ == decode_utf8(b@),
{
    std::str::from_utf8(b).ok()
}

/// The scan's state while it runs over a stream of events.
struct SampleScanner {
    in_sample_ref: bool,
    in_file_ref: bool,
    texts: Vec<String>,
    found: Ghost<Set<Seq<u8>>>,
}

impl SampleScanner {
    /// The texts list the paths found so far.
    spec fn wf(&self) -> bool {
        lists_paths(self.texts@, self.found@)
    }

    /// The state of the scan that this scanner has reached.
    spec fn state(&self) -> ScanState {
        (self.in_sample_ref, self.in_file_ref, self.found@)
    }

    fn new() -> (r: SampleScanner)
        ensures
            r.wf(),
            r.state() == (false, false, Set::<Seq<u8>>::empty()),
    {
        SampleScanner { in_sample_ref: false, in_file_ref: false, texts: Vec::new(), found: Ghost(Set::empty()) }
    }

    /// Adds a path in its place in the order; a path already listed stays once.
    fn add(&mut self, text: String, Ghost(p): Ghost<Seq<u8>>)
        requires
            old(self).wf(),
            valid_utf8(p),
            text@ == decode_utf8(p),
        ensures
            final(self).wf(),
            final(self).state() == (old(self).state().0, old(self).state().1, old(self).state().2.insert(p)),
    {
        let ghost v = text_views(self.texts@);
        let ghost old_found = self.found@;
        let mut j: usize = 0;
        let mut c: i8 = -1;
        while j < self.texts.len() && c == -1
            invariant
                self.texts@ == old(self).texts@,
                self.found@ == old_found,
                v == text_views(self.texts@),
                self.in_sample_ref == old(self).in_sample_ref,
                self.in_file_ref == old(self).in_file_ref,
                j <= v.len(),
                j > 0 ==> path_order(v[j - 1], text@) == -1,
                c == -1 || c == 0 || c == 1,
                c != -1 ==> j < v.len(),
                c == 0 ==> path_order(text@, v[j as int]) == 0,
                c == 1 ==> path_order(text@, v[j as int]) == -1,
            decreases v.len() - j + (if c == -1 { 1int } else { 0int }),
        {
            c = compare_paths(self.texts[j].as_str(), text.as_str());
            assert(self.texts@[j as int]@ == v[j as int]);
            if c == -1 {
                j = j + 1;
            }
        }
        let ghost new_found = old_found.insert(p);
        if j < self.texts.len() && c == 0 {
            self.found = Ghost(new_found);
            assert forall|i: int| 0 <= i < v.len() implies decoded_from(#[trigger] v[i], new_found) by {
                assert(decoded_from(v[i], old_found));
                let q = choose|q: Seq<u8>| #[trigger] old_found.contains(q) && v[i] == decode_utf8(q);
                assert(new_found.contains(q));
            }
            assert forall|q: Seq<u8>| #[trigger] new_found.contains(q) implies represented(q, v) by {
                if q == p {
                    assert(path_order(decode_utf8(q), v[j as int]) == 0);
                } else {
                    assert(old_found.contains(q));
                }
            }
            return;
        }
        self.texts.insert(j, text);
        self.found = Ghost(new_found);
        let ghost w = text_views(self.texts@);
        assert(w =~= v.insert(j as int, decode_utf8(p)));
        assert forall|i: int| 0 <= i < w.len() - 1 implies #[trigger] path_order(w[i], w[i + 1]) == -1 by {
            if i < j - 1 {
                assert(path_order(v[i], v[i + 1]) == -1);
            } else if i > j {
                let k = i - 1;
                assert(path_order(v[k], v[k + 1]) == -1);
                assert(w[i] == v[k]);
                assert(w[i + 1] == v[k + 1]);
            }
        }
        assert forall|i: int| 0 <= i < w.len() implies decoded_from(#[trigger] w[i], new_found) by {
            if i == j {
                assert(new_found.contains(p));
            } else {
                let k = if i < j { i } else { i - 1 };
                assert(w[i] == v[k]);
                assert(decoded_from(v[k], old_found));
                let q = choose|q: Seq<u8>| #[trigger] old_found.contains(q) && v[k] == decode_utf8(q);
                assert(new_found.contains(q));
            }
        }
        assert forall|q: Seq<u8>| #[trigger] new_found.contains(q) implies represented(q, w) by {
            if q == p {
                assert(w[j as int] == decode_utf8(q));
            } else {
                assert(old_found.contains(q));
                assert(represented(q, v));
                let k = choose|k: int| 0 <= k < v.len() && (#[trigger] v[k] == decode_utf8(q) || path_order(decode_utf8(q), v[k]) == 0);
                if k < j {
                    assert(w[k] == v[k]);
                } else {
                    assert(w[k + 1] == v[k]);
                }
            }
        }
    }

    /// The decoded sample paths, in order.
    fn finish(self) -> (r: Vec<String>)
        requires
            self.wf(),
        ensures
            lists_paths(r@, self.state().2),
    {
        self.texts
    }

    /// Applies one event.
    fn feed(&mut self, t: &Token) -> (r: Result<(), ParseError>)
        requires
            old(self).wf(),
        ensures
            scan_step(Ok(old(self).state()), *t) is Err ==> r is Err
                && r->Err_0 == scan_step(Ok(old(self).state()), *t)->Err_0,
            scan_step(Ok(old(self).state()), *t) is Ok ==> r is Ok && final(self).wf()
                && final(self).state() == scan_step(Ok(old(self).state()), *t)->Ok_0,
    {
        match t {
            Token::Start(n) => {
                if bytes_equal(n.as_slice(), "SampleRef".as_bytes()) {
                    self.in_sample_ref = true;
                } else if bytes_equal(n.as_slice(), "FileRef".as_bytes()) {
                    self.in_file_ref = true;
                }
                Ok(())
            },
            Token::End(n) => {
                if bytes_equal(n.as_slice(), "SampleRef".as_bytes()) {
                    self.in_sample_ref = false;
                } else if bytes_equal(n.as_slice(), "FileRef".as_bytes()) {
                    self.in_file_ref = false;
                }
                Ok(())
            },
            Token::Empty(n, v) => {
                if self.in_sample_ref && self.in_file_ref && bytes_equal(n.as_slice(), "RelativePath".as_bytes()) {
                    match v {
                        ValueAttr::Found(b) => match decode_text(b.as_slice()) {
                            None => Err(ParseError::Text),
                            Some(text) => {
                                if is_audio_bytes(b.as_slice()) {
                                    let owned = text.to_owned();
                                    self.add(owned, Ghost(b@));
                                }
                                Ok(())
                            },
                        },
                        ValueAttr::Absent => Ok(()),
                        ValueAttr::Malformed => Err(ParseError::Attribute),
                    }
                } else {
                    Ok(())
                }
            },
            _ => Ok(()),
        }
    }
}

/// The sample paths that the events `tokens` refer to: each `Value` of a self-closing `RelativePath` element met
/// while inside both a `SampleRef` and a `FileRef` element, whose extension is an
/// audio one; decoded as UTF-8, in ascending path order, each path once. A value that
/// is not valid UTF-8 there fails with `Text`, attributes that cannot be read
/// there with `Attribute`, whichever comes first.
pub fn extract_samples(tokens: &Vec<Token>) -> (r: Result<Vec<String>, ParseError>)
    ensures
        scan(tokens@) is Err ==> r is Err && r->Err_0 == scan(tokens@)->Err_0,
        scan(tokens@) is Ok ==> r is Ok && lists_paths(r->Ok_0@, scanned_paths(tokens@)),
{
    let mut scanner = SampleScanner::new();
    let mut i: usize = 0;
    while i < tokens.len()
        invariant
            i <= tokens@.len(),
            scanner.wf(),
            scan(tokens@.subrange(0, i as int)) == Ok::<ScanState, ParseError>(scanner.state()),
        decreases tokens@.len() - i,
    {
        let ghost seen = tokens@.subrange(0, i as int);
        assert(tokens@.subrange(0, i + 1).drop_last() == seen);
        match scanner.feed(&tokens[i]) {
            Err(e) => {
                proof { lemma_scan_stays_failed(tokens@, i as int + 1); }
                return Err(e);
            },
            Ok(()) => {},
        }
        i = i + 1;
    }
    assert(tokens@.subrange(0, i as int) == tokens@);
    Ok(scanner.finish())
}

/// The events of the markup `xml` up to its end or its first malformed part,
/// each self-closing element with its attribute named `attr`.
pub uninterp spec fn markup_events(xml: Seq<char>, attr: Seq<char>) -> Seq<Token>;

/// The markup `xml` is malformed somewhere before its end.
pub uninterp spec fn markup_fails(xml: Seq<char>) -> bool;

/// Relies on quick_xml::Reader::read_event for the events of `xml`, read until
/// the end or the first error, and on BytesStart::try_get_attribute for the
/// attribute `attr` of a self-closing element. Both depend on the text alone.
#[verifier::external_body]
fn tokenize(xml: &str, attr: &str) -> (r: (Vec<Token>, bool))
    ensures
        r.0@ == markup_events(xml@, attr@),
        r.1 == markup_fails(xml@),
{
    let mut reader = Reader::from_str(xml);
    let mut tokens = Vec::new();
    while let Ok(event) = reader.read_event() {
        tokens.push(match event {
            Event::Start(e) => Token::Start(e.name().0.to_vec()),
            Event::End(e) => Token::End(e.name().0.to_vec()),
            Event::Empty(e) => Token::Empty(e.name().0.to_vec(), match e.try_get_attribute(attr) {
                Ok(found) => found.map_or(ValueAttr::Absent, |a| ValueAttr::Found(a.value.to_vec())),
                Err(_) => ValueAttr::Malformed,
            }),
            Event::Eof => return (tokens, false),
            _ => Token::Other,
        });
    }
    (tokens, true)
}

/// The attribute of a `RelativePath` element that holds the sample path.
pub open spec fn value_attr() -> Seq<char> {
    "Value"@
}

/// Scans the descriptor markup `xml` of the project in `project_dir`. The
/// events before the first malformed part are scanned as `extract_samples`
/// does: its failure comes first; then malformed markup fails with `Markup`;
/// otherwise the project lists the scanned sample paths.
pub fn parse_project(project_dir: &str, xml: &str) -> (r: Result<AbletonProject, ParseError>)
    ensures
        scan(markup_events(xml@, value_attr())) is Err ==> r is Err
            && r->Err_0 == scan(markup_events(xml@, value_attr()))->Err_0,
        scan(markup_events(xml@, value_attr())) is Ok && markup_fails(xml@) ==> r is Err
            && r->Err_0 == ParseError::Markup,
        scan(markup_events(xml@, value_attr())) is Ok && !markup_fails(xml@) ==> r is Ok
            && r->Ok_0.project_dir@ == project_dir@
            && lists_paths(r->Ok_0.samples@, scanned_paths(markup_events(xml@, value_attr()))),
{
    let attr = "Value";
    assert(attr@ == value_attr());
    let (tokens, failed) = tokenize(xml, attr);
    match extract_samples(&tokens) {
        Err(e) => Err(e),
        Ok(samples) => if failed {
            Err(ParseError::Markup)
        } else {
            Ok(AbletonProject { project_dir: project_dir.to_owned(), samples })
        },
    }
}

/// Outside every `SampleRef` element nothing is accepted: a scan of events that
/// open no `SampleRef` succeeds and accepts no path.
pub proof fn no_sample_ref_no_samples(toks: Seq<Token>)
    requires
        forall|i: int| 0 <= i < toks.len() ==> !(#[trigger] toks[i] is Start && toks[i]->Start_0@ == sample_ref_tag()),
    ensures
        scan(toks) is Ok,
        !scan(toks)->Ok_0.0,
        scanned_paths(toks) == Set::<Seq<u8>>::empty(),
    decreases toks.len(),
{
    if toks.len() > 0 {
        let prev = toks.drop_last();
        assert forall|i: int| 0 <= i < prev.len() implies !(#[trigger] prev[i] is Start && prev[i]->Start_0@ == sample_ref_tag()) by {
            assert(prev[i] == toks[i]);
        }
        no_sample_ref_no_samples(prev);
        assert(toks.last() == toks[toks.len() - 1]);
    }
}

/// Every path a scan accepts has an audio extension.
pub proof fn accepted_paths_are_audio(toks: Seq<Token>)
    ensures
        scan(toks) is Ok ==> forall|p: Seq<u8>| #[trigger] scanned_paths(toks).contains(p) ==> is_audio_path(p),
    decreases toks.len(),
{
    if toks.len() > 0 {
        let prev = toks.drop_last();
        accepted_paths_are_audio(prev);
        if scan(toks) is Ok {
            assert(scan(prev) is Ok);
            assert forall|p: Seq<u8>| #[trigger] scanned_paths(toks).contains(p) implies is_audio_path(p) by {
                if !scanned_paths(prev).contains(p) {
                    match toks.last() {
                        Token::Empty(_, ValueAttr::Found(b)) => assert(p == b@),
                        _ => {},
                    }
                }
            }
        }
    }
}

/// Once the scan of a prefix has failed, the scan of the whole fails the same way.
proof fn lemma_scan_stays_failed(toks: Seq<Token>, n: int)
    requires
        0 <= n <= toks.len(),
        scan(toks.subrange(0, n)) is Err,
    ensures
        scan(toks) == scan(toks.subrange(0, n)),
    decreases toks.len() - n,
{
    if n < toks.len() {
        assert(toks.subrange(0, n + 1).drop_last() == toks.subrange(0, n));
        lemma_scan_stays_failed(toks, n + 1);
    } else {
        assert(toks.subrange(0, n) == toks);
    }
}

} // verus!
