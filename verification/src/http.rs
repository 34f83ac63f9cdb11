//! The HTTP side: which requests are protocol upgrades, which response each
//! request gets, and the text of the listing page.
//!
//! Nothing here touches a socket. The caller reads the request, asks
//! `HttpServer` what to do, performs it and sends the response.
use crate::db::{files_view, ArchiveFile, ArchiveFileView};
use crate::listing::{lemma_newest_first, newest_first, order_listing, total_size};
use crate::names::{base_name, file_name};
use crate::numbers::{gib, gib_text, grouped, mib, mib_text, with_commas};
use crate::text::{
    chars_of, decimal, decimal_digits, eq_ignore_ascii_case, extend, find_first, first_index,
    replace_all, replaced, same_ignoring_ascii_case, same_text, slice_of, string_of,
};
use sha1::Digest;
use vstd::prelude::*;

verus! {

/// The SHA-1 digest of `data`.
pub uninterp spec fn sha1_digest(data: Seq<u8>) -> Seq<u8>;

/// The base64 text of `data`, in the standard alphabet with padding.
pub uninterp spec fn base64_standard(data: Seq<u8>) -> Seq<char>;

/// `sha1::Sha1::digest`: the SHA-1 digest of `data`, which has 20 bytes.
#[verifier::external_body]
fn sha1_of(data: &[u8]) -> (r: Vec<u8>)
    ensures
        r@ == sha1_digest(data@),
        r@.len() == 20,
{
    sha1::Sha1::digest(data).to_vec()
}

/// `base64::Engine::encode` of `BASE64_STANDARD`: four characters for every
/// three bytes, the last group padded. The input is kept so short that the
/// length of the text fits a `usize`; beyond that base64 panics.
#[verifier::external_body]
fn base64_of(data: &[u8]) -> (r: String)
    requires
        (data@.len() / 3 + 1) * 4 <= usize::MAX,
    ensures
        r@ == base64_standard(data@),
        r@.len() == (data@.len() + 2) / 3 * 4,
{
    base64::Engine::encode(&base64::prelude::BASE64_STANDARD, data)
}

/// The fixed text that the handshake appends to the key.
pub const WS_GUID: &'static str = "258EAFA5-E914-47DA-95CA-C5AB0DC85B11";

/// The value of `Sec-WebSocket-Accept` for a `Sec-WebSocket-Key` of the bytes
/// `key`: the base64 text of the SHA-1 digest of the key followed by the fixed
/// text.
pub open spec fn accept_key(key: Seq<u8>) -> Seq<char> {
    base64_standard(sha1_digest(key + vstd::utf8::encode_utf8(WS_GUID@)))
}

/// Derives the `Sec-WebSocket-Accept` response header from a
/// `Sec-WebSocket-Key` request header. The value has 28 characters, whatever
/// the key.
pub fn derive_accept_key(request_key: &[u8]) -> (r: String)
    ensures
        r@ == accept_key(request_key@),
        r@.len() == 28,
{
    let mut content: Vec<u8> = Vec::new();
    extend(&mut content, request_key);
    extend(&mut content, WS_GUID.as_bytes());
    let digest = sha1_of(content.as_slice());
    base64_of(digest.as_slice())
}

/// Whether `c` is a space or a tab.
pub open spec fn is_blank(c: char) -> bool {
    c == ' ' || c == '\t'
}

/// `s` without the blanks at its start.
pub open spec fn trim_start(s: Seq<char>) -> Seq<char>
    decreases s.len(),
{
    if s.len() > 0 && is_blank(s[0]) {
        trim_start(s.skip(1))
    } else {
        s
    }
}

/// `s` without the blanks at its end.
pub open spec fn trim_end(s: Seq<char>) -> Seq<char>
    decreases s.len(),
{
    if s.len() > 0 && is_blank(s.last()) {
        trim_end(s.drop_last())
    } else {
        s
    }
}

/// `s` without the blanks at its start and at its end.
pub open spec fn trimmed(s: Seq<char>) -> Seq<char> {
    trim_end(trim_start(s))
}

/// Whether one element of the comma-separated list `value` is `token`,
/// blanks around it and the case of ASCII letters aside.
pub open spec fn has_token(value: Seq<char>, token: Seq<char>) -> bool
    decreases value.len(),
{
    let cut = first_index(value, ',');
    ||| eq_ignore_ascii_case(trimmed(value.take(cut)), token)
    ||| (0 <= cut < value.len() && has_token(value.skip(cut + 1), token))
}

/// `s` without the blanks at its start and at its end.
pub fn trim(s: &[char]) -> (r: Vec<char>)
    ensures
        r@ == trimmed(s@),
{
    let mut from: usize = 0;
    assert(s@.skip(0) =~= s@);
    while from < s.len() && (s[from] == ' ' || s[from] == '\t')
        invariant
            from <= s.len(),
            trim_start(s@) == trim_start(s@.skip(from as int)),
        decreases s.len() - from,
    {
        assert(s@.skip(from as int).skip(1) =~= s@.skip(from + 1));
        from += 1;
    }
    let ghost front = s@.skip(from as int);
    assert(trim_start(s@) == front);
    let mut to: usize = s.len();
    assert(s@.subrange(from as int, to as int) =~= front);
    while to > from && (s[to - 1] == ' ' || s[to - 1] == '\t')
        invariant
            from <= to <= s.len(),
            trim_end(front) == trim_end(s@.subrange(from as int, to as int)),
        decreases to,
    {
        assert(s@.subrange(from as int, to as int).drop_last() =~= s@.subrange(
            from as int,
            to - 1,
        ));
        to -= 1;
    }
    slice_of(s, from, to)
}

/// Whether the comma-separated header value `value` lists `token`.
pub fn header_has_token(value: &[char], token: &[char]) -> (r: bool)
    ensures
        r == has_token(value@, token@),
{
    let mut from: usize = 0;
    assert(value@.skip(0) =~= value@);
    loop
        invariant
            from <= value.len(),
            has_token(value@, token@) == has_token(value@.skip(from as int), token@),
        decreases value.len() - from,
    {
        let rest = slice_of(value, from, value.len());
        assert(rest@ =~= value@.skip(from as int));
        let cut = find_first(rest.as_slice(), ',');
        let element = slice_of(rest.as_slice(), 0, cut);
        assert(element@ =~= rest@.take(cut as int));
        let element = trim(element.as_slice());
        if same_ignoring_ascii_case(element.as_slice(), token) {
            return true;
        }
        if cut >= rest.len() {
            return false;
        }
        assert(rest@.skip(cut + 1) =~= value@.skip(from + cut + 1));
        from = from + cut + 1;
    }
}

/// What is read of a request.
pub struct Request {
    /// The value of the `Connection` header, where it is text.
    pub connection: Option<String>,
    /// The value of the `Upgrade` header, where it is text.
    pub upgrade: Option<String>,
    /// The bytes of the `Sec-WebSocket-Key` header.
    pub key: Option<Vec<u8>>,
    /// The path of the request.
    pub path: String,
}

/// Whether the headers ask for the protocol upgrade: `Connection` lists the
/// token `upgrade` and `Upgrade` is `websocket`, both without regard to case.
pub open spec fn asks_upgrade(connection: Option<String>, upgrade: Option<String>) -> bool {
    &&& connection matches Some(c) && has_token(c@, "upgrade"@)
    &&& upgrade matches Some(u) && eq_ignore_ascii_case(u@, "websocket"@)
}

/// Whether the two header values ask for the protocol upgrade.
pub fn is_upgrade_request(connection: &Option<String>, upgrade: &Option<String>) -> (r: bool)
    ensures
        r == asks_upgrade(*connection, *upgrade),
{
    match (connection, upgrade) {
        (Some(c), Some(u)) => {
            let c = chars_of(c.as_str());
            let u = chars_of(u.as_str());
            let token = chars_of("upgrade");
            let protocol = chars_of("websocket");
            header_has_token(c.as_slice(), token.as_slice()) && same_ignoring_ascii_case(
                u.as_slice(),
                protocol.as_slice(),
            )
        },
        _ => false,
    }
}

/// A response: the status, the headers in order, and the body where the
/// library writes it.
pub struct Response {
    pub status: u16,
    pub headers: Vec<(String, String)>,
    pub body: String,
}

pub struct ResponseView {
    pub status: u16,
    pub headers: Seq<(Seq<char>, Seq<char>)>,
    pub body: Seq<char>,
}

impl View for Response {
    type V = ResponseView;

    open spec fn view(&self) -> ResponseView {
        ResponseView {
            status: self.status,
            headers: self.headers@.map_values(|h: (String, String)| (h.0@, h.1@)),
            body: self.body@,
        }
    }
}

/// The header that every response carries.
pub open spec fn server_header() -> (Seq<char>, Seq<char>) {
    ("server"@, "nostr-relay-builder"@)
}

/// The response to an upgrade: 101 with the accept key.
pub open spec fn upgrade_response_of(accept: Seq<char>) -> ResponseView {
    ResponseView {
        status: 101,
        headers: seq![
            server_header(),
            ("connection"@, "upgrade"@),
            ("upgrade"@, "websocket"@),
            ("sec-websocket-accept"@, accept),
        ],
        body: Seq::empty(),
    }
}

/// The response for what is not there: 404 with an empty body.
pub open spec fn not_found_response() -> ResponseView {
    ResponseView { status: 404, headers: seq![server_header()], body: Seq::empty() }
}

/// The head of a download: 200, with the length of the file. The body is the
/// file, which the caller streams.
pub open spec fn download_response_of(size: u64) -> ResponseView {
    ResponseView {
        status: 200,
        headers: seq![
            server_header(),
            ("content-type"@, "application/octet-stream"@),
            ("content-length"@, decimal_digits(size as nat)),
        ],
        body: Seq::empty(),
    }
}

/// The listing page: 200 with the page as the body.
pub open spec fn landing_response_of(page: Seq<char>) -> ResponseView {
    ResponseView {
        status: 200,
        headers: seq![server_header(), ("content-type"@, "text/html"@)],
        body: page,
    }
}

/// A header of the given name and value.
fn header(name: &str, value: String) -> (r: (String, String))
    ensures
        r.0@ == name@,
        r.1@ == value@,
{
    (name.to_owned(), value)
}

/// The response to an upgrade with the accept key `accept`.
pub fn upgrade_response(accept: String) -> (r: Response)
    ensures
        r@ == upgrade_response_of(accept@),
{
    let mut headers: Vec<(String, String)> = Vec::new();
    headers.push(header("server", "nostr-relay-builder".to_owned()));
    headers.push(header("connection", "upgrade".to_owned()));
    headers.push(header("upgrade", "websocket".to_owned()));
    headers.push(header("sec-websocket-accept", accept));
    let r = Response { status: 101, headers, body: String::new() };
    assert(r@.headers =~= upgrade_response_of(accept@).headers);
    r
}

/// The response for what is not there.
pub fn not_found() -> (r: Response)
    ensures
        r@ == not_found_response(),
{
    let mut headers: Vec<(String, String)> = Vec::new();
    headers.push(header("server", "nostr-relay-builder".to_owned()));
    let r = Response { status: 404, headers, body: String::new() };
    assert(r@.headers =~= not_found_response().headers);
    r
}

/// The head of the download of a file of `size` bytes.
pub fn download_response(size: u64) -> (r: Response)
    ensures
        r@ == download_response_of(size),
{
    let mut headers: Vec<(String, String)> = Vec::new();
    headers.push(header("server", "nostr-relay-builder".to_owned()));
    headers.push(header("content-type", "application/octet-stream".to_owned()));
    headers.push(header("content-length", decimal(size)));
    let r = Response { status: 200, headers, body: String::new() };
    assert(r@.headers =~= download_response_of(size).headers);
    r
}

/// The response that carries the listing page.
pub fn landing_response(page: String) -> (r: Response)
    ensures
        r@ == landing_response_of(page@),
{
    let mut headers: Vec<(String, String)> = Vec::new();
    headers.push(header("server", "nostr-relay-builder".to_owned()));
    headers.push(header("content-type", "text/html".to_owned()));
    let r = Response { status: 200, headers, body: page };
    assert(r@.headers =~= landing_response_of(page@).headers);
    r
}

/// The link of one file on the listing page: the name of the file, and its
/// size in mebibytes.
pub open spec fn anchor(file: ArchiveFileView) -> Seq<char> {
    let name = base_name(file.path);
    "<a href=\""@ + name + "\">"@ + name + " ("@ + mib_text(file.size as nat) + " MiB)</a>"@
}

/// The links of the files, one per line.
pub open spec fn links(files: Seq<ArchiveFileView>) -> Seq<char>
    decreases files.len(),
{
    if files.len() == 0 {
        Seq::empty()
    } else if files.len() == 1 {
        anchor(files[0])
    } else {
        links(files.drop_last()) + seq!['\n'] + anchor(files.last())
    }
}

/// The listing page: the template with its three placeholders replaced, one
/// after the other, by the links of the files, newest first, by the count of
/// events with thousands separators, and by the total size in gibibytes.
pub open spec fn landing_page(template: Seq<char>, files: Seq<ArchiveFileView>, count: u64) -> Seq<
    char,
> {
    let with_links = replaced(template, "%%_LINKS_%%"@, links(newest_first(files)));
    let with_count = replaced(with_links, "%%_TOTAL_EVENTS_%%"@, with_commas(count as nat));
    replaced(with_count, "%%_TOTAL_SIZE_%%"@, gib_text(total_size(files)) + " GiB"@)
}

/// Appends the link of `file` to `out`.
fn push_anchor(out: &mut Vec<char>, file: &ArchiveFile)
    ensures
        final(out)@ == old(out)@ + anchor(file@),
{
    let path = chars_of(file.path.as_str());
    let name = file_name(path.as_slice());
    let size = mib(file.size);
    let open = chars_of("<a href=\"");
    let middle = chars_of("\">");
    let paren = chars_of(" (");
    let size = chars_of(size.as_str());
    let close = chars_of(" MiB)</a>");
    extend(out, open.as_slice());
    extend(out, name.as_slice());
    extend(out, middle.as_slice());
    extend(out, name.as_slice());
    extend(out, paren.as_slice());
    extend(out, size.as_slice());
    extend(out, close.as_slice());
    assert(out@ =~= old(out)@ + anchor(file@));
}

/// Renders the listing page from its template.
pub fn render_landing(template: &str, files: Vec<ArchiveFile>, count: u64) -> (r: String)
    ensures
        r@ == landing_page(template@, files_view(files@), count),
{
    let ghost given = files_view(files@);
    let sorted = order_listing(files);
    proof {
        lemma_newest_first(given);
    }
    let mut list: Vec<char> = Vec::new();
    let mut total: u128 = 0;
    let mut i: usize = 0;
    while i < sorted.len()
        invariant
            i <= sorted.len(),
            list@ == links(files_view(sorted@).take(i as int)),
            total == total_size(files_view(sorted@).take(i as int)),
            total <= i * 0xffff_ffff_ffff_ffff,
        decreases sorted.len() - i,
    {
        proof {
            let shown = files_view(sorted@).take(i + 1);
            assert(shown.drop_last() =~= files_view(sorted@).take(i as int));
            assert(shown.last() == sorted@[i as int]@);
            if i == 1 {
                assert(shown.drop_last()[0] == shown[0]);
            }
        }
        if i > 0 {
            list.push('\n');
        }
        push_anchor(&mut list, &sorted[i]);
        total = total + sorted[i].size as u128;
        i += 1;
    }
    assert(files_view(sorted@).take(sorted@.len() as int) =~= files_view(sorted@));
    let page = chars_of(template);
    let links_mark = chars_of("%%_LINKS_%%");
    let count_mark = chars_of("%%_TOTAL_EVENTS_%%");
    let size_mark = chars_of("%%_TOTAL_SIZE_%%");
    let count_text = chars_of(grouped(count).as_str());
    let mut size_text = chars_of(gib(total).as_str());
    let unit = chars_of(" GiB");
    extend(&mut size_text, unit.as_slice());
    let page = replace_all(page.as_slice(), links_mark.as_slice(), list.as_slice());
    let page = replace_all(page.as_slice(), count_mark.as_slice(), count_text.as_slice());
    let page = replace_all(page.as_slice(), size_mark.as_slice(), size_text.as_slice());
    string_of(page.as_slice())
}

/// What a parsed request still waits for.
#[derive(Clone, Copy, Debug, PartialEq, Eq, Structural)]
pub enum Route {
    /// The listing page.
    Landing,
    /// A file of the archive.
    Download,
}

/// Where a connection stands. A connection serves one request and ends in
/// `Closed`, whichever way it went.
#[derive(Clone, Copy, Debug, PartialEq, Eq, Structural)]
pub enum ConnectionState {
    /// No request was read yet.
    Accepted,
    /// The request was read and waits for the listing or for the file.
    Parsed(Route),
    /// The upgrade was answered; the stream goes to the relay.
    UpgradeHandoff,
    /// A file is being sent.
    FileStreaming,
    /// The listing page is being sent.
    LandingResponse,
    Closed,
}

/// What the caller is to do with a request.
pub enum Dispatch {
    /// Send the response and hand the upgraded stream to the relay.
    Upgrade(Response),
    /// Close the connection without a response.
    Refuse,
    /// List the archive and render the listing page.
    Landing,
    /// Look for the file that this request path asks for.
    Download(String),
}

pub enum DispatchView {
    Upgrade(ResponseView),
    Refuse,
    Landing,
    Download(Seq<char>),
}

impl View for Dispatch {
    type V = DispatchView;

    open spec fn view(&self) -> DispatchView {
        match self {
            Dispatch::Upgrade(response) => DispatchView::Upgrade(response@),
            Dispatch::Refuse => DispatchView::Refuse,
            Dispatch::Landing => DispatchView::Landing,
            Dispatch::Download(path) => DispatchView::Download(path@),
        }
    }
}

/// Where a request goes. One that asks for the upgrade is answered with the
/// accept key of its key, and refused where it has no key. Any other request is
/// for the listing page where its path is `/` or `/index.html`, and for a file
/// otherwise.
pub open spec fn dispatch_of(request: Request) -> DispatchView {
    if asks_upgrade(request.connection, request.upgrade) {
        match request.key {
            Some(key) => DispatchView::Upgrade(upgrade_response_of(accept_key(key@))),
            None => DispatchView::Refuse,
        }
    } else if request.path@ == "/"@ || request.path@ == "/index.html"@ {
        DispatchView::Landing
    } else {
        DispatchView::Download(request.path@)
    }
}

/// The state after a request was read in `state` and dispatched.
pub open spec fn after_call(state: ConnectionState, dispatch: DispatchView) -> ConnectionState {
    if state != ConnectionState::Accepted {
        ConnectionState::Closed
    } else {
        match dispatch {
            DispatchView::Upgrade(_) => ConnectionState::UpgradeHandoff,
            DispatchView::Refuse => ConnectionState::Closed,
            DispatchView::Landing => ConnectionState::Parsed(Route::Landing),
            DispatchView::Download(_) => ConnectionState::Parsed(Route::Download),
        }
    }
}

/// Dispatches a request by its headers and its path.
pub fn dispatch(request: &Request) -> (r: Dispatch)
    ensures
        r@ == dispatch_of(*request),
{
    if is_upgrade_request(&request.connection, &request.upgrade) {
        match &request.key {
            Some(key) => Dispatch::Upgrade(upgrade_response(derive_accept_key(key.as_slice()))),
            None => Dispatch::Refuse,
        }
    } else {
        let path = chars_of(request.path.as_str());
        let root = chars_of("/");
        let index = chars_of("/index.html");
        if same_text(path.as_slice(), root.as_slice()) || same_text(
            path.as_slice(),
            index.as_slice(),
        ) {
            Dispatch::Landing
        } else {
            Dispatch::Download(request.path.clone())
        }
    }
}

/// One connection: the address of the peer, and where the connection stands.
pub struct HttpServer {
    remote: String,
    state: ConnectionState,
}

pub struct HttpServerView {
    pub remote: Seq<char>,
    pub state: ConnectionState,
}

impl View for HttpServer {
    type V = HttpServerView;

    closed spec fn view(&self) -> HttpServerView {
        HttpServerView { remote: self.remote@, state: self.state }
    }
}

impl HttpServer {
    /// A connection that was accepted from `remote`.
    pub fn new(remote: String) -> (r: Self)
        ensures
            r@ == (HttpServerView { remote: remote@, state: ConnectionState::Accepted }),
    {
        HttpServer { remote, state: ConnectionState::Accepted }
    }

    pub fn remote(&self) -> (r: &str)
        ensures
            r@ == self@.remote,
    {
        self.remote.as_str()
    }

    pub fn state(&self) -> (r: ConnectionState)
        ensures
            r == self@.state,
    {
        self.state
    }

    /// Takes the request of the connection. A connection that already had its
    /// request refuses any other and closes.
    pub fn call(&mut self, request: &Request) -> (r: Dispatch)
        ensures
            final(self)@.remote == old(self)@.remote,
            old(self)@.state == ConnectionState::Accepted ==> r@ == dispatch_of(*request),
            old(self)@.state != ConnectionState::Accepted ==> r@ == DispatchView::Refuse,
            final(self)@.state == after_call(old(self)@.state, r@),
    {
        if self.state != ConnectionState::Accepted {
            self.state = ConnectionState::Closed;
            return Dispatch::Refuse;
        }
        let r = dispatch(request);
        self.state = match &r {
            Dispatch::Upgrade(_) => ConnectionState::UpgradeHandoff,
            Dispatch::Refuse => ConnectionState::Closed,
            Dispatch::Landing => ConnectionState::Parsed(Route::Landing),
            Dispatch::Download(_) => ConnectionState::Parsed(Route::Download),
        };
        r
    }

    /// Answers a request for a file with what the archive found. A file that is
    /// there is announced with its length and the connection streams it; for
    /// one that is not, and on a connection that waits for no file, the answer
    /// is 404 and the connection closes.
    pub fn download(&mut self, file: Option<&ArchiveFile>) -> (r: Response)
        ensures
            final(self)@.remote == old(self)@.remote,
            old(self)@.state == ConnectionState::Parsed(Route::Download) && file is Some ==> r@
                == download_response_of(file->0.size) && final(self)@.state
                == ConnectionState::FileStreaming,
            !(old(self)@.state == ConnectionState::Parsed(Route::Download) && file is Some) ==> r@
                == not_found_response() && final(self)@.state == ConnectionState::Closed,
    {
        if self.state == ConnectionState::Parsed(Route::Download) {
            if let Some(found) = file {
                self.state = ConnectionState::FileStreaming;
                return download_response(found.size);
            }
        }
        self.state = ConnectionState::Closed;
        not_found()
    }

    /// Answers a request for the listing page with the page rendered from
    /// `template`. On a connection that waits for no listing the answer is 404
    /// and the connection closes.
    pub fn landing(&mut self, template: &str, files: Vec<ArchiveFile>, count: u64) -> (r: Response)
        ensures
            final(self)@.remote == old(self)@.remote,
            old(self)@.state == ConnectionState::Parsed(Route::Landing) ==> r@
                == landing_response_of(landing_page(template@, files_view(files@), count))
                && final(self)@.state == ConnectionState::LandingResponse,
            old(self)@.state != ConnectionState::Parsed(Route::Landing) ==> r@
                == not_found_response() && final(self)@.state == ConnectionState::Closed,
    {
        if self.state == ConnectionState::Parsed(Route::Landing) {
            self.state = ConnectionState::LandingResponse;
            landing_response(render_landing(template, files, count))
        } else {
            self.state = ConnectionState::Closed;
            not_found()
        }
    }

    /// Ends the connection: the response is sent, or something failed.
    pub fn close(&mut self)
        ensures
            final(self)@ == (HttpServerView { state: ConnectionState::Closed, ..old(self)@ }),
    {
        self.state = ConnectionState::Closed;
    }
}

/// Every response carries the server header, and it comes first.
pub proof fn lemma_server_header(accept: Seq<char>, size: u64, page: Seq<char>)
    ensures
        upgrade_response_of(accept).headers[0] == server_header(),
        not_found_response().headers[0] == server_header(),
        download_response_of(size).headers[0] == server_header(),
        landing_response_of(page).headers[0] == server_header(),
{
}

} // verus!
