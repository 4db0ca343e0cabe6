//! The qBittorrent WebUI API: which request comes next, and what its reply means.
//!
//! An operation is a function of the replies that came so far. It says which request to
//! send next, or that it is done, or why it failed; the caller does the sending.
use crate::config::ServerConfig;
use crate::paths::PathStyle;
use crate::shown;
use crate::text;
use crate::torrent::Torrent;
use vstd::prelude::*;

verus! {

#[derive(Debug, Clone, Copy, PartialEq, Eq, Structural)]
pub enum Method {
    Get,
    Post,
}

/// One HTTP request.
#[derive(Debug)]
pub struct ApiRequest {
    pub method: Method,
    pub url: String,
    pub headers: Vec<(String, String)>,
    /// Form fields of a POST, query parameters of a GET.
    pub fields: Vec<(String, String)>,
    /// Whether the body of the answer is read.
    pub reads_body: bool,
}

/// A request, as mathematics sees it.
pub struct RequestView {
    pub method: Method,
    pub url: Seq<char>,
    pub headers: Seq<(Seq<char>, Seq<char>)>,
    pub fields: Seq<(Seq<char>, Seq<char>)>,
    pub reads_body: bool,
}

/// The views of a sequence of string pairs.
pub open spec fn pair_views(v: Seq<(String, String)>) -> Seq<(Seq<char>, Seq<char>)> {
    Seq::new(v.len(), |i: int| (v[i].0@, v[i].1@))
}

impl View for ApiRequest {
    type V = RequestView;

    open spec fn view(&self) -> RequestView {
        RequestView {
            method: self.method,
            url: self.url@,
            headers: pair_views(self.headers@),
            fields: pair_views(self.fields@),
            reads_body: self.reads_body,
        }
    }
}

impl ApiRequest {
    /// Whether the body of an answer with the given status is read. That of an error is not.
    pub fn reads_body_of(&self, status: u16) -> (r: bool)
        ensures
            r == (self.reads_body && !error_status(status)),
    {
        self.reads_body && !(400 <= status && status < 600)
    }
}

/// What came back for a request.
#[derive(Debug)]
pub enum Reply {
    /// The request did not get through.
    Unreachable { cause: String },
    /// The server answered. The body is empty where it is not read. The complaint is what the
    /// HTTP client says of an error status; it is empty where the status is none.
    Answer { status: u16, body: String, complaint: String },
    /// The server answered without an error status, but the body could not be read.
    Unreadable { cause: String },
}

/// A reply, as mathematics sees it.
pub enum ReplyView {
    Unreachable { cause: Seq<char> },
    Answer { status: u16, body: Seq<char>, complaint: Seq<char> },
    Unreadable { cause: Seq<char> },
}

impl View for Reply {
    type V = ReplyView;

    open spec fn view(&self) -> ReplyView {
        match self {
            Reply::Unreachable { cause } => ReplyView::Unreachable { cause: cause@ },
            Reply::Answer { status, body, complaint } => ReplyView::Answer {
                status: *status,
                body: body@,
                complaint: complaint@,
            },
            Reply::Unreadable { cause } => ReplyView::Unreadable { cause: cause@ },
        }
    }
}

/// The views of a sequence of replies.
pub open spec fn reply_views(v: Seq<Reply>) -> Seq<ReplyView> {
    Seq::new(v.len(), |i: int| v[i]@)
}

/// Why an operation failed.
#[derive(Debug, Clone, PartialEq)]
pub enum ClientError {
    /// A request did not get through.
    RequestFailed { url: String, cause: String },
    /// A request was answered with an error status.
    ErrorStatus { url: String, status: u16, complaint: String },
    /// The body of an answer could not be read.
    UnreadableBody { cause: String },
    /// The login did not get through, or was answered with an error status.
    LoginFailed { qbit_url: String, cause: String },
    /// The server did not accept username and password.
    AuthenticationFailed { qbit_url: String },
    /// The server knows neither name of the stop endpoint.
    NoStopEndpoint,
    /// The server knows neither name of the start endpoint.
    NoStartEndpoint,
    /// The *arr instance has no remote path mappings to offer.
    NoMappingEndpoint { label: String },
    /// The torrent lies outside of `path_prefix`.
    PathOutsidePrefix { path: String, prefix: String },
    /// qBittorrent has no save path for the category.
    NoSavePath { category: String },
}

/// An error, as mathematics sees it.
pub enum ErrorView {
    RequestFailed { url: Seq<char>, cause: Seq<char> },
    ErrorStatus { url: Seq<char>, status: u16, complaint: Seq<char> },
    UnreadableBody { cause: Seq<char> },
    LoginFailed { qbit_url: Seq<char>, cause: Seq<char> },
    AuthenticationFailed { qbit_url: Seq<char> },
    NoStopEndpoint,
    NoStartEndpoint,
    NoMappingEndpoint { label: Seq<char> },
    PathOutsidePrefix { path: Seq<char>, prefix: Seq<char> },
    NoSavePath { category: Seq<char> },
}

impl View for ClientError {
    type V = ErrorView;

    open spec fn view(&self) -> ErrorView {
        match self {
            ClientError::RequestFailed { url, cause } => ErrorView::RequestFailed {
                url: url@,
                cause: cause@,
            },
            ClientError::ErrorStatus { url, status, complaint } => ErrorView::ErrorStatus {
                url: url@,
                status: *status,
                complaint: complaint@,
            },
            ClientError::UnreadableBody { cause } => ErrorView::UnreadableBody { cause: cause@ },
            ClientError::LoginFailed { qbit_url, cause } => ErrorView::LoginFailed {
                qbit_url: qbit_url@,
                cause: cause@,
            },
            ClientError::AuthenticationFailed { qbit_url } => ErrorView::AuthenticationFailed {
                qbit_url: qbit_url@,
            },
            ClientError::NoStopEndpoint => ErrorView::NoStopEndpoint,
            ClientError::NoStartEndpoint => ErrorView::NoStartEndpoint,
            ClientError::NoMappingEndpoint { label } => ErrorView::NoMappingEndpoint {
                label: label@,
            },
            ClientError::PathOutsidePrefix { path, prefix } => ErrorView::PathOutsidePrefix {
                path: path@,
                prefix: prefix@,
            },
            ClientError::NoSavePath { category } => ErrorView::NoSavePath { category: category@ },
        }
    }
}

/// The text of an error.
pub open spec fn error_text(error: ErrorView) -> Seq<char> {
    match error {
        ErrorView::RequestFailed { url, cause } => "Request to "@ + url + " failed: "@ + cause,
        ErrorView::ErrorStatus { url, complaint, .. } => "Request to "@ + url
            + " returned an error status: "@ + complaint,
        ErrorView::UnreadableBody { cause } => cause,
        ErrorView::LoginFailed { qbit_url, cause } => "Failed to reach qBittorrent at "@ + qbit_url
            + ": "@ + cause,
        ErrorView::AuthenticationFailed { qbit_url } => "Authentication failed for "@ + qbit_url
            + " (check username/password)"@,
        ErrorView::NoStopEndpoint =>
            "Neither torrents/stop nor torrents/pause is available on this qBittorrent version"@,
        ErrorView::NoStartEndpoint =>
            "Neither torrents/start nor torrents/resume is available on this qBittorrent version"@,
        ErrorView::NoMappingEndpoint { label } => label
            + ": no remotepathmapping endpoint found (tried /api/v3 and /api/v1)"@,
        ErrorView::PathOutsidePrefix { path, prefix } => shown::outside_prefix(
            shown::debug_path(path),
            shown::debug_text(prefix),
        ),
        ErrorView::NoSavePath { category } => "qBittorrent has no save path for category '"@
            + category + "'"@,
    }
}

/// The text for a request that did not get through.
fn request_failed_text(url: &String, cause: &String) -> (r: String)
    ensures
        r@ == error_text(ErrorView::RequestFailed { url: url@, cause: cause@ }),
{
    "Request to ".to_owned().concat(url.as_str()).concat(" failed: ").concat(cause.as_str())
}

/// The text for a request that was answered with an error status.
fn error_status_text(url: &String, complaint: &String) -> (r: String)
    ensures
        forall|status: u16|
            r@ == #[trigger] error_text(
                ErrorView::ErrorStatus { url: url@, status, complaint: complaint@ },
            ),
{
    "Request to ".to_owned().concat(url.as_str()).concat(" returned an error status: ").concat(
        complaint.as_str(),
    )
}

impl ClientError {
    /// The text of the error.
    pub fn message(&self) -> (r: String)
        ensures
            r@ == error_text(self@),
    {
        match self {
            ClientError::RequestFailed { url, cause } => request_failed_text(url, cause),
            ClientError::ErrorStatus { url, complaint, .. } => error_status_text(url, complaint),
            ClientError::UnreadableBody { cause } => cause.clone(),
            ClientError::LoginFailed { qbit_url, cause } => {
                "Failed to reach qBittorrent at ".to_owned().concat(qbit_url.as_str()).concat(
                    ": ",
                ).concat(cause.as_str())
            },
            ClientError::AuthenticationFailed { qbit_url } => {
                "Authentication failed for ".to_owned().concat(qbit_url.as_str()).concat(
                    " (check username/password)",
                )
            },
            ClientError::NoStopEndpoint =>
                "Neither torrents/stop nor torrents/pause is available on this qBittorrent version".to_owned(),
            ClientError::NoStartEndpoint =>
                "Neither torrents/start nor torrents/resume is available on this qBittorrent version".to_owned(),
            ClientError::NoMappingEndpoint { label } => label.clone().concat(
                ": no remotepathmapping endpoint found (tried /api/v3 and /api/v1)",
            ),
            ClientError::PathOutsidePrefix { path, prefix } => {
                let shown_path = shown::show_path(path.as_str());
                let shown_prefix = shown::show_text(prefix.as_str());
                shown::outside_prefix_text(shown_path.as_str(), shown_prefix.as_str())
            },
            ClientError::NoSavePath { category } => {
                "qBittorrent has no save path for category '".to_owned().concat(
                    category.as_str(),
                ).concat("'")
            },
        }
    }
}

/// What an operation does next.
#[derive(Debug)]
pub enum Step {
    Send(ApiRequest),
    Done,
    Fail(ClientError),
}

/// A step, as mathematics sees it.
pub enum StepView {
    Send(RequestView),
    Done,
    Fail(ErrorView),
}

impl View for Step {
    type V = StepView;

    open spec fn view(&self) -> StepView {
        match self {
            Step::Send(request) => StepView::Send(request@),
            Step::Done => StepView::Done,
            Step::Fail(error) => StepView::Fail(error@),
        }
    }
}

/// Client and server errors.
pub open spec fn error_status(status: u16) -> bool {
    400 <= status < 600
}

/// The endpoint is not there.
pub open spec fn not_found(reply: ReplyView) -> bool {
    reply matches ReplyView::Answer { status, .. } && status == 404
}

/// The request clashes with what the server holds, such as a category that does not exist.
pub open spec fn conflict(reply: ReplyView) -> bool {
    reply matches ReplyView::Answer { status, .. } && status == 409
}

/// What a reply means for an operation that only needs its request to succeed.
pub open spec fn verdict(url: Seq<char>, reply: ReplyView) -> StepView {
    match reply {
        ReplyView::Unreachable { cause } => StepView::Fail(ErrorView::RequestFailed { url, cause }),
        ReplyView::Answer { status, complaint, .. } => if error_status(status) {
            StepView::Fail(ErrorView::ErrorStatus { url, status, complaint })
        } else {
            StepView::Done
        },
        ReplyView::Unreadable { cause } => StepView::Fail(ErrorView::UnreadableBody { cause }),
    }
}

/// An operation of one request.
pub open spec fn one_request(request: RequestView, replies: Seq<ReplyView>) -> StepView {
    if replies.len() == 0 {
        StepView::Send(request)
    } else {
        verdict(request.url, replies[0])
    }
}

/// An operation that tries its requests in turn while the endpoints are not there.
pub open spec fn first_found(
    requests: Seq<RequestView>,
    replies: Seq<ReplyView>,
    missing: ErrorView,
) -> StepView
    decreases requests.len(),
{
    if requests.len() == 0 {
        StepView::Fail(missing)
    } else if replies.len() > 0 && not_found(replies[0]) {
        first_found(requests.drop_first(), replies.drop_first(), missing)
    } else {
        one_request(requests[0], replies)
    }
}

/// Two texts as a pair of strings.
pub(crate) fn pair(a: &str, b: &str) -> (r: (String, String))
    ensures
        (r.0@, r.1@) == (a@, b@),
{
    (a.to_owned(), b.to_owned())
}

/// What a reply means for an operation that only needs its request to succeed.
pub(crate) fn judge(url: &String, reply: &Reply) -> (r: Step)
    ensures
        r@ == verdict(url@, reply@),
{
    match reply {
        Reply::Unreachable { cause } => Step::Fail(
            ClientError::RequestFailed { url: url.clone(), cause: cause.clone() },
        ),
        Reply::Answer { status, complaint, .. } => if 400 <= *status && *status < 600 {
            Step::Fail(
                ClientError::ErrorStatus {
                    url: url.clone(),
                    status: *status,
                    complaint: complaint.clone(),
                },
            )
        } else {
            Step::Done
        },
        Reply::Unreadable { cause } => Step::Fail(
            ClientError::UnreadableBody { cause: cause.clone() },
        ),
    }
}

fn is_not_found(reply: &Reply) -> (r: bool)
    ensures
        r == not_found(reply@),
{
    match reply {
        Reply::Unreachable { .. } | Reply::Unreadable { .. } => false,
        Reply::Answer { status, .. } => *status == 404,
    }
}

fn is_conflict(reply: &Reply) -> (r: bool)
    ensures
        r == conflict(reply@),
{
    match reply {
        Reply::Unreachable { .. } | Reply::Unreadable { .. } => false,
        Reply::Answer { status, .. } => *status == 409,
    }
}

/// An operation of one request, of which the replies from place `from` on are meant.
fn send_once(request: ApiRequest, replies: &Vec<Reply>, from: usize) -> (r: Step)
    requires
        from <= replies.len(),
    ensures
        r@ == one_request(request@, reply_views(replies@).skip(from as int)),
{
    if from == replies.len() {
        Step::Send(request)
    } else {
        assert(reply_views(replies@).skip(from as int)[0] == replies@[from as int]@);
        judge(&request.url, &replies[from])
    }
}

/// An operation that tries its requests in turn while the endpoints are not there.
pub(crate) fn send_first_found(
    requests: Vec<ApiRequest>,
    replies: &Vec<Reply>,
    missing: ClientError,
) -> (r: Step)
    ensures
        r@ == first_found(request_views(requests@), reply_views(replies@), missing@),
{
    let mut queue = requests;
    let ghost asked = request_views(queue@);
    let ghost heard = reply_views(replies@);
    let mut i: usize = 0;
    assert(asked.skip(0) =~= asked);
    assert(heard.skip(0) =~= heard);
    while i < queue.len()
        invariant
            i <= queue.len(),
            i <= replies.len(),
            asked == request_views(queue@),
            asked == request_views(requests@),
            heard == reply_views(replies@),
            first_found(asked, heard, missing@) == first_found(
                asked.skip(i as int),
                heard.skip(i as int),
                missing@,
            ),
        decreases queue.len() - i,
    {
        assert(i < replies.len() ==> heard.skip(i as int)[0] == replies@[i as int]@);
        assert(asked.skip(i as int)[0] == queue@[i as int]@);
        if i < replies.len() && is_not_found(&replies[i]) {
            assert(asked.skip(i as int).drop_first() =~= asked.skip(i + 1));
            assert(heard.skip(i as int).drop_first() =~= heard.skip(i + 1));
            i = i + 1;
        } else {
            let request = queue.remove(i);
            return send_once(request, replies, i);
        }
    }
    Step::Fail(missing)
}

/// The views of a sequence of requests.
pub open spec fn request_views(v: Seq<ApiRequest>) -> Seq<RequestView> {
    Seq::new(v.len(), |i: int| v[i]@)
}

/// A change to one torrent that the API makes.
#[derive(Debug, Clone, PartialEq)]
pub enum Command {
    /// Put the torrent into a category, which is created first where it has to be and may be.
    SetCategory { hash: String, category: String, create: bool },
    /// Add tags, separated by commas.
    AddTags { hash: String, tags: String },
    /// Remove tags, separated by commas.
    RemoveTags { hash: String, tags: String },
    Stop { hash: String },
    Start { hash: String },
    Recheck { hash: String },
    /// Remove the torrent, with its files or without them.
    Remove { hash: String, delete_files: bool },
    /// Let qBittorrent move the payload.
    SetLocation { hash: String, location: String },
}

/// A command, as mathematics sees it.
pub enum CommandView {
    SetCategory { hash: Seq<char>, category: Seq<char>, create: bool },
    AddTags { hash: Seq<char>, tags: Seq<char> },
    RemoveTags { hash: Seq<char>, tags: Seq<char> },
    Stop { hash: Seq<char> },
    Start { hash: Seq<char> },
    Recheck { hash: Seq<char> },
    Remove { hash: Seq<char>, delete_files: bool },
    SetLocation { hash: Seq<char>, location: Seq<char> },
}

impl View for Command {
    type V = CommandView;

    open spec fn view(&self) -> CommandView {
        match self {
            Command::SetCategory { hash, category, create } => CommandView::SetCategory {
                hash: hash@,
                category: category@,
                create: *create,
            },
            Command::AddTags { hash, tags } => CommandView::AddTags { hash: hash@, tags: tags@ },
            Command::RemoveTags { hash, tags } => CommandView::RemoveTags {
                hash: hash@,
                tags: tags@,
            },
            Command::Stop { hash } => CommandView::Stop { hash: hash@ },
            Command::Start { hash } => CommandView::Start { hash: hash@ },
            Command::Recheck { hash } => CommandView::Recheck { hash: hash@ },
            Command::Remove { hash, delete_files } => CommandView::Remove {
                hash: hash@,
                delete_files: *delete_files,
            },
            Command::SetLocation { hash, location } => CommandView::SetLocation {
                hash: hash@,
                location: location@,
            },
        }
    }
}

/// The client of one server.
#[derive(Debug, Clone)]
pub struct TorrentClient {
    pub server: ServerConfig,
    /// How this host writes paths.
    pub style: PathStyle,
}

impl TorrentClient {
    /// The URL of an endpoint; slashes at the end of the base URL do not matter.
    pub open spec fn url_of(self, path: Seq<char>) -> Seq<char> {
        text::trim_slashes(self.server.qbit_url@) + path
    }

    /// A form sent to an endpoint.
    pub open spec fn form(self, path: Seq<char>, fields: Seq<(Seq<char>, Seq<char>)>) -> RequestView {
        RequestView {
            method: Method::Post,
            url: self.url_of(path),
            headers: Seq::empty(),
            fields,
            reads_body: false,
        }
    }

    /// A query of an endpoint.
    pub open spec fn query(
        self,
        path: Seq<char>,
        fields: Seq<(Seq<char>, Seq<char>)>,
    ) -> RequestView {
        RequestView {
            method: Method::Get,
            url: self.url_of(path),
            headers: Seq::empty(),
            fields,
            reads_body: true,
        }
    }

    /// Logging in: nothing to do without a username; otherwise the server has to say `Ok.`.
    pub open spec fn login_step(self, replies: Seq<ReplyView>) -> StepView {
        let form = self.form(
            "/api/v2/auth/login"@,
            seq![
                ("username"@, self.server.username@),
                ("password"@, self.server.password@),
            ],
        );
        let request = RequestView { reads_body: true, ..form };
        if self.server.username@.len() == 0 {
            StepView::Done
        } else {
            match one_request(request, replies) {
                StepView::Done => if replies[0] matches ReplyView::Answer { body, .. }
                    && text::trimmed(body) == "Ok."@ {
                    StepView::Done
                } else {
                    StepView::Fail(
                        ErrorView::AuthenticationFailed { qbit_url: self.server.qbit_url@ },
                    )
                },
                StepView::Fail(e) => if e is UnreadableBody {
                    StepView::Fail(e)
                } else {
                    StepView::Fail(
                        ErrorView::LoginFailed {
                            qbit_url: self.server.qbit_url@,
                            cause: error_text(e),
                        },
                    )
                },
                step => step,
            }
        }
    }

    /// Logging out: nothing to do without a username.
    pub open spec fn logout_step(self, replies: Seq<ReplyView>) -> StepView {
        if self.server.username@.len() == 0 {
            StepView::Done
        } else {
            one_request(self.form("/api/v2/auth/logout"@, Seq::empty()), replies)
        }
    }

    /// Setting a category; where it does not exist and may be created, it is created and the
    /// torrent is put into it then.
    pub open spec fn set_category_step(
        self,
        hash: Seq<char>,
        category: Seq<char>,
        create: bool,
        replies: Seq<ReplyView>,
    ) -> StepView {
        let set = self.form(
            "/api/v2/torrents/setCategory"@,
            seq![("hashes"@, hash), ("category"@, category)],
        );
        let make = self.form("/api/v2/torrents/createCategory"@, seq![("category"@, category)]);
        if create && replies.len() > 0 && conflict(replies[0]) {
            match one_request(make, replies.skip(1)) {
                StepView::Done => one_request(set, replies.skip(2)),
                step => step,
            }
        } else {
            one_request(set, replies)
        }
    }

    /// The step of a command.
    pub open spec fn command_step(self, command: CommandView, replies: Seq<ReplyView>) -> StepView {
        match command {
            CommandView::SetCategory { hash, category, create } => self.set_category_step(
                hash,
                category,
                create,
                replies,
            ),
            CommandView::AddTags { hash, tags } => one_request(
                self.form(
                    "/api/v2/torrents/addTags"@,
                    seq![("hashes"@, hash), ("tags"@, tags)],
                ),
                replies,
            ),
            CommandView::RemoveTags { hash, tags } => one_request(
                self.form(
                    "/api/v2/torrents/removeTags"@,
                    seq![("hashes"@, hash), ("tags"@, tags)],
                ),
                replies,
            ),
            CommandView::Stop { hash } => first_found(
                seq![
                    self.form("/api/v2/torrents/stop"@, seq![("hashes"@, hash)]),
                    self.form("/api/v2/torrents/pause"@, seq![("hashes"@, hash)]),
                ],
                replies,
                ErrorView::NoStopEndpoint,
            ),
            CommandView::Start { hash } => first_found(
                seq![
                    self.form("/api/v2/torrents/start"@, seq![("hashes"@, hash)]),
                    self.form("/api/v2/torrents/resume"@, seq![("hashes"@, hash)]),
                ],
                replies,
                ErrorView::NoStartEndpoint,
            ),
            CommandView::Recheck { hash } => one_request(
                self.form("/api/v2/torrents/recheck"@, seq![("hashes"@, hash)]),
                replies,
            ),
            CommandView::Remove { hash, delete_files } => one_request(
                self.form(
                    "/api/v2/torrents/delete"@,
                    seq![
                        ("hashes"@, hash),
                        (
                            "deleteFiles"@,
                            if delete_files {
                                "true"@
                            } else {
                                "false"@
                            },
                        ),
                    ],
                ),
                replies,
            ),
            CommandView::SetLocation { hash, location } => one_request(
                self.form(
                    "/api/v2/torrents/setLocation"@,
                    seq![("hashes"@, hash), ("location"@, location)],
                ),
                replies,
            ),
        }
    }

    /// A client of `server` on a Unix host.
    pub fn new(server: ServerConfig) -> (r: TorrentClient)
        ensures
            r.server == server,
            r.style == PathStyle::Unix,
    {
        TorrentClient { server, style: PathStyle::Unix }
    }

    /// A client of `server` on a host that writes paths in the given style.
    pub fn on_host(server: ServerConfig, style: PathStyle) -> (r: TorrentClient)
        ensures
            r.server == server,
            r.style == style,
    {
        TorrentClient { server, style }
    }

    /// The URL of an endpoint.
    pub fn url(&self, path: &str) -> (r: String)
        ensures
            r@ == self.url_of(path@),
    {
        text::without_trailing_slashes(self.server.qbit_url.as_str()).to_owned().concat(path)
    }

    /// A query of an endpoint.
    fn get(&self, path: &str, fields: Vec<(String, String)>) -> (r: ApiRequest)
        ensures
            r@ == self.query(path@, pair_views(fields@)),
    {
        let r = ApiRequest {
            method: Method::Get,
            url: self.url(path),
            headers: Vec::new(),
            fields,
            reads_body: true,
        };
        assert(r@.headers =~= Seq::empty());
        r
    }

    /// A form sent to an endpoint.
    fn post_form(&self, path: &str, fields: Vec<(String, String)>) -> (r: ApiRequest)
        ensures
            r@ == self.form(path@, pair_views(fields@)),
    {
        let r = ApiRequest {
            method: Method::Post,
            url: self.url(path),
            headers: Vec::new(),
            fields,
            reads_body: false,
        };
        assert(r@.headers =~= Seq::empty());
        r
    }

    /// A form with the torrent's hash.
    fn post_hash(&self, path: &str, hash: &str) -> (r: ApiRequest)
        ensures
            r@ == self.form(path@, seq![("hashes"@, hash@)]),
    {
        let fields = vec![pair("hashes", hash)];
        assert(pair_views(fields@) =~= seq![("hashes"@, hash@)]);
        self.post_form(path, fields)
    }

    /// A form with the torrent's hash and one more field.
    fn post_hash_and(&self, path: &str, hash: &str, key: &str, value: &str) -> (r: ApiRequest)
        ensures
            r@ == self.form(path@, seq![("hashes"@, hash@), (key@, value@)]),
    {
        let fields = vec![pair("hashes", hash), pair(key, value)];
        assert(pair_views(fields@) =~= seq![("hashes"@, hash@), (key@, value@)]);
        self.post_form(path, fields)
    }

    /// Authenticates against the qBittorrent WebUI. Skipped when `username` is empty, which
    /// supports WebUI setups with authentication bypass enabled.
    pub fn login(&self, replies: &Vec<Reply>) -> (r: Step)
        ensures
            r@ == self.login_step(reply_views(replies@)),
    {
        if self.server.username.as_str().is_empty() {
            return Step::Done;
        }
        let fields = vec![
            pair("username", self.server.username.as_str()),
            pair("password", self.server.password.as_str()),
        ];
        assert(pair_views(fields@) =~= seq![
            ("username"@, self.server.username@),
            ("password"@, self.server.password@),
        ]);
        let mut request = self.post_form("/api/v2/auth/login", fields);
        request.reads_body = true;
        assert(reply_views(replies@).skip(0) =~= reply_views(replies@));
        let step = send_once(request, replies, 0);
        match step {
            Step::Done => {
                assert(reply_views(replies@)[0] == replies@[0]@);
                let accepted = match &replies[0] {
                    Reply::Answer { body, .. } => text::same(text::trim(body.as_str()), "Ok."),
                    Reply::Unreachable { .. } | Reply::Unreadable { .. } => false,
                };
                if accepted {
                    Step::Done
                } else {
                    Step::Fail(
                        ClientError::AuthenticationFailed {
                            qbit_url: self.server.qbit_url.clone(),
                        },
                    )
                }
            },
            Step::Fail(ClientError::RequestFailed { url, cause }) => Step::Fail(
                ClientError::LoginFailed {
                    qbit_url: self.server.qbit_url.clone(),
                    cause: request_failed_text(&url, &cause),
                },
            ),
            Step::Fail(ClientError::ErrorStatus { url, complaint, .. }) => Step::Fail(
                ClientError::LoginFailed {
                    qbit_url: self.server.qbit_url.clone(),
                    cause: error_status_text(&url, &complaint),
                },
            ),
            other => other,
        }
    }

    /// Ends the WebUI session. Best-effort; errors can safely be ignored.
    pub fn logout(&self, replies: &Vec<Reply>) -> (r: Step)
        ensures
            r@ == self.logout_step(reply_views(replies@)),
    {
        if self.server.username.as_str().is_empty() {
            return Step::Done;
        }
        let fields: Vec<(String, String)> = Vec::new();
        assert(pair_views(fields@) =~= Seq::empty());
        assert(reply_views(replies@).skip(0) =~= reply_views(replies@));
        send_once(self.post_form("/api/v2/auth/logout", fields), replies, 0)
    }

    /// Lists the torrents whose download is complete.
    pub fn get_completed_torrents(&self, replies: &Vec<Reply>) -> (r: Step)
        ensures
            r@ == one_request(
                self.query("/api/v2/torrents/info"@, seq![("filter"@, "completed"@)]),
                reply_views(replies@),
            ),
    {
        let fields = vec![pair("filter", "completed")];
        assert(pair_views(fields@) =~= seq![("filter"@, "completed"@)]);
        assert(reply_views(replies@).skip(0) =~= reply_views(replies@));
        send_once(self.get("/api/v2/torrents/info", fields), replies, 0)
    }

    /// Lists all torrents.
    pub fn get_torrents(&self, replies: &Vec<Reply>) -> (r: Step)
        ensures
            r@ == one_request(
                self.query("/api/v2/torrents/info"@, Seq::empty()),
                reply_views(replies@),
            ),
    {
        let fields: Vec<(String, String)> = Vec::new();
        assert(pair_views(fields@) =~= Seq::empty());
        assert(reply_views(replies@).skip(0) =~= reply_views(replies@));
        send_once(self.get("/api/v2/torrents/info", fields), replies, 0)
    }

    /// Lists the categories with their save paths.
    pub fn get_categories(&self, replies: &Vec<Reply>) -> (r: Step)
        ensures
            r@ == one_request(
                self.query("/api/v2/torrents/categories"@, Seq::empty()),
                reply_views(replies@),
            ),
    {
        let fields: Vec<(String, String)> = Vec::new();
        assert(pair_views(fields@) =~= Seq::empty());
        assert(reply_views(replies@).skip(0) =~= reply_views(replies@));
        send_once(self.get("/api/v2/torrents/categories", fields), replies, 0)
    }

    /// Removes the torrent from qBittorrent, with its files or without them.
    pub fn remove_torrent(&self, hash: &str, delete_files: bool, replies: &Vec<Reply>) -> (r: Step)
        ensures
            r@ == self.command_step(
                CommandView::Remove { hash: hash@, delete_files },
                reply_views(replies@),
            ),
    {
        let flag = if delete_files {
            "true"
        } else {
            "false"
        };
        let request = self.post_hash_and("/api/v2/torrents/delete", hash, "deleteFiles", flag);
        assert(reply_views(replies@).skip(0) =~= reply_views(replies@));
        send_once(request, replies, 0)
    }

    /// Stops the torrent so qBittorrent closes its file handles before the
    /// payload is moved. This matters in particular when qBittorrent runs in
    /// a container and this tool runs on the host: open handles held through
    /// the bind-mount file-sharing layer (e.g. Docker Desktop) can otherwise
    /// make the host-side move fail with sharing violations.
    ///
    /// qBittorrent 5.x renamed the endpoint from `torrents/pause` to
    /// `torrents/stop`; the new name is tried first with a fallback for 4.x.
    pub fn stop_torrent(&self, hash: &str, replies: &Vec<Reply>) -> (r: Step)
        ensures
            r@ == self.command_step(CommandView::Stop { hash: hash@ }, reply_views(replies@)),
    {
        let requests = vec![
            self.post_hash("/api/v2/torrents/stop", hash),
            self.post_hash("/api/v2/torrents/pause", hash),
        ];
        assert(request_views(requests@) =~= seq![
            self.form("/api/v2/torrents/stop"@, seq![("hashes"@, hash@)]),
            self.form("/api/v2/torrents/pause"@, seq![("hashes"@, hash@)]),
        ]);
        send_first_found(requests, replies, ClientError::NoStopEndpoint)
    }

    /// Starts the torrent, by the endpoint's 5.x name or else its 4.x name.
    pub fn start_torrent(&self, hash: &str, replies: &Vec<Reply>) -> (r: Step)
        ensures
            r@ == self.command_step(CommandView::Start { hash: hash@ }, reply_views(replies@)),
    {
        let requests = vec![
            self.post_hash("/api/v2/torrents/start", hash),
            self.post_hash("/api/v2/torrents/resume", hash),
        ];
        assert(request_views(requests@) =~= seq![
            self.form("/api/v2/torrents/start"@, seq![("hashes"@, hash@)]),
            self.form("/api/v2/torrents/resume"@, seq![("hashes"@, hash@)]),
        ]);
        send_first_found(requests, replies, ClientError::NoStartEndpoint)
    }

    /// Puts the torrent into a category, which is created first where it has to be and
    /// `create` allows it.
    pub fn set_category(&self, hash: &str, category: &str, create: bool, replies: &Vec<Reply>) -> (r:
        Step)
        ensures
            r@ == self.set_category_step(hash@, category@, create, reply_views(replies@)),
    {
        let ghost heard = reply_views(replies@);
        assert(heard.len() > 0 ==> heard[0] == replies@[0]@);
        let set = self.post_hash_and("/api/v2/torrents/setCategory", hash, "category", category);
        if create && replies.len() > 0 && is_conflict(&replies[0]) {
            let fields = vec![pair("category", category)];
            assert(pair_views(fields@) =~= seq![("category"@, category@)]);
            let make = self.post_form("/api/v2/torrents/createCategory", fields);
            let step = send_once(make, replies, 1);
            match step {
                Step::Done => {
                    assert(heard.skip(1).len() > 0);
                    send_once(set, replies, 2)
                },
                other => other,
            }
        } else {
            assert(heard.skip(0) =~= heard);
            send_once(set, replies, 0)
        }
    }

    /// The next step of a command.
    pub fn run_command(&self, command: &Command, replies: &Vec<Reply>) -> (r: Step)
        ensures
            r@ == self.command_step(command@, reply_views(replies@)),
    {
        assert(reply_views(replies@).skip(0) =~= reply_views(replies@));
        match command {
            Command::SetCategory { hash, category, create } => self.set_category(
                hash.as_str(),
                category.as_str(),
                *create,
                replies,
            ),
            Command::AddTags { hash, tags } => send_once(
                self.post_hash_and(
                    "/api/v2/torrents/addTags",
                    hash.as_str(),
                    "tags",
                    tags.as_str(),
                ),
                replies,
                0,
            ),
            Command::RemoveTags { hash, tags } => send_once(
                self.post_hash_and(
                    "/api/v2/torrents/removeTags",
                    hash.as_str(),
                    "tags",
                    tags.as_str(),
                ),
                replies,
                0,
            ),
            Command::Stop { hash } => self.stop_torrent(hash.as_str(), replies),
            Command::Start { hash } => self.start_torrent(hash.as_str(), replies),
            Command::Recheck { hash } => send_once(
                self.post_hash("/api/v2/torrents/recheck", hash.as_str()),
                replies,
                0,
            ),
            Command::Remove { hash, delete_files } => self.remove_torrent(
                hash.as_str(),
                *delete_files,
                replies,
            ),
            Command::SetLocation { hash, location } => send_once(
                self.post_hash_and(
                    "/api/v2/torrents/setLocation",
                    hash.as_str(),
                    "location",
                    location.as_str(),
                ),
                replies,
                0,
            ),
        }
    }
}

/// The commands that clear a torrent's tags: none where it has none.
pub open spec fn clear_tags_views(torrent: Torrent) -> Seq<CommandView> {
    if torrent.tag_views().len() == 0 {
        Seq::empty()
    } else {
        seq![
            CommandView::RemoveTags {
                hash: torrent.hash@,
                tags: text::join(torrent.tag_views(), ","@),
            },
        ]
    }
}

/// The views of a sequence of commands.
pub open spec fn command_views(v: Seq<Command>) -> Seq<CommandView> {
    Seq::new(v.len(), |i: int| v[i]@)
}

/// The commands that clear a torrent's tags.
pub fn clear_tags(torrent: &Torrent) -> (r: Vec<Command>)
    ensures
        command_views(r@) == clear_tags_views(*torrent),
{
    let tags = torrent.tag_list();
    let mut out: Vec<Command> = Vec::new();
    if tags.len() > 0 {
        out.push(
            Command::RemoveTags {
                hash: torrent.hash.clone(),
                tags: text::join_with(&tags, ","),
            },
        );
    }
    assert(command_views(out@) =~= clear_tags_views(*torrent));
    out
}

/// A WebUI without authentication sees neither a login nor a logout.
pub proof fn law_no_session_without_username(client: TorrentClient, replies: Seq<ReplyView>)
    requires
        client.server.username@.len() == 0,
    ensures
        client.login_step(replies) is Done,
        client.logout_step(replies) is Done,
{
}

/// With a username, a login succeeds exactly when the server answers `Ok.` without an error
/// status.
pub proof fn law_login_needs_ok(
    client: TorrentClient,
    status: u16,
    body: Seq<char>,
    complaint: Seq<char>,
)
    requires
        client.server.username@.len() > 0,
    ensures
        client.login_step(seq![ReplyView::Answer { status, body, complaint }]) is Done <==> !error_status(
            status,
        ) && text::trimmed(body) == "Ok."@,
{
}

/// While the endpoints tried so far are not there, the next one is asked.
pub proof fn law_next_endpoint_is_asked(
    requests: Seq<RequestView>,
    replies: Seq<ReplyView>,
    missing: ErrorView,
)
    requires
        replies.len() <= requests.len(),
        forall|i: int| 0 <= i < replies.len() ==> not_found(#[trigger] replies[i]),
    ensures
        first_found(requests, replies, missing) == (if replies.len() == requests.len() {
            StepView::Fail(missing)
        } else {
            StepView::Send(requests[replies.len() as int])
        }),
    decreases requests.len(),
{
    if replies.len() > 0 {
        assert(not_found(replies[0]));
        assert forall|i: int| 0 <= i < replies.drop_first().len() implies not_found(
            #[trigger] replies.drop_first()[i],
        ) by {
            assert(replies.drop_first()[i] == replies[i + 1]);
        }
        law_next_endpoint_is_asked(requests.drop_first(), replies.drop_first(), missing);
    }
}

/// The first endpoint that is there settles the operation; the ones behind it are not asked.
pub proof fn law_found_endpoint_settles(
    requests: Seq<RequestView>,
    replies: Seq<ReplyView>,
    missing: ErrorView,
    at: int,
)
    requires
        0 <= at < requests.len(),
        at < replies.len(),
        !not_found(replies[at]),
        forall|i: int| 0 <= i < at ==> not_found(#[trigger] replies[i]),
    ensures
        first_found(requests, replies, missing) == verdict(requests[at].url, replies[at]),
    decreases requests.len(),
{
    if at > 0 {
        assert(not_found(replies[0]));
        assert forall|i: int| 0 <= i < at - 1 implies not_found(
            #[trigger] replies.drop_first()[i],
        ) by {
            assert(replies.drop_first()[i] == replies[i + 1]);
        }
        law_found_endpoint_settles(
            requests.drop_first(),
            replies.drop_first(),
            missing,
            at - 1,
        );
    }
}

proof fn lemma_first_found_settles(
    requests: Seq<RequestView>,
    replies: Seq<ReplyView>,
    missing: ErrorView,
)
    requires
        replies.len() >= requests.len(),
    ensures
        !(first_found(requests, replies, missing) is Send),
    decreases requests.len(),
{
    if requests.len() > 0 && not_found(replies[0]) {
        lemma_first_found_settles(requests.drop_first(), replies.drop_first(), missing);
    }
}

/// Every command is settled after three replies at most.
pub proof fn law_commands_settle(
    client: TorrentClient,
    command: CommandView,
    replies: Seq<ReplyView>,
)
    requires
        replies.len() >= 3,
    ensures
        !(client.command_step(command, replies) is Send),
{
    match command {
        CommandView::Stop { hash } => {
            lemma_first_found_settles(
                seq![
                    client.form("/api/v2/torrents/stop"@, seq![("hashes"@, hash)]),
                    client.form("/api/v2/torrents/pause"@, seq![("hashes"@, hash)]),
                ],
                replies,
                ErrorView::NoStopEndpoint,
            );
        },
        CommandView::Start { hash } => {
            lemma_first_found_settles(
                seq![
                    client.form("/api/v2/torrents/start"@, seq![("hashes"@, hash)]),
                    client.form("/api/v2/torrents/resume"@, seq![("hashes"@, hash)]),
                ],
                replies,
                ErrorView::NoStartEndpoint,
            );
        },
        _ => {},
    }
}

/// Where the category is missing and may be created, it is created and the torrent is put
/// into it.
pub proof fn law_missing_category_is_created(
    client: TorrentClient,
    hash: Seq<char>,
    category: Seq<char>,
    body: Seq<char>,
    complaint: Seq<char>,
    made: ReplyView,
)
    requires
        made matches ReplyView::Answer { status, .. } && !error_status(status),
    ensures
        ({
            let set = client.form(
                "/api/v2/torrents/setCategory"@,
                seq![("hashes"@, hash), ("category"@, category)],
            );
            let make = client.form(
                "/api/v2/torrents/createCategory"@,
                seq![("category"@, category)],
            );
            let clash = ReplyView::Answer { status: 409, body, complaint };
            &&& client.set_category_step(hash, category, true, seq![]) == StepView::Send(set)
            &&& client.set_category_step(hash, category, true, seq![clash]) == StepView::Send(make)
            &&& client.set_category_step(hash, category, true, seq![clash, made])
                == StepView::Send(set)
            &&& client.set_category_step(hash, category, false, seq![clash]) == StepView::Fail(
                ErrorView::ErrorStatus { url: set.url, status: 409, complaint },
            )
        }),
{
}

/// A slash at the end of the base URL does not matter.
pub proof fn law_base_url_slash(a: TorrentClient, b: TorrentClient, path: Seq<char>)
    requires
        b.server.qbit_url@ == a.server.qbit_url@.push('/'),
    ensures
        b.url_of(path) == a.url_of(path),
{
    assert(a.server.qbit_url@.push('/').drop_last() =~= a.server.qbit_url@);
}

/// A torrent is stopped by the newer endpoint; the older one is asked exactly when that is not
/// there.
pub proof fn law_stop_falls_back_on_not_found(
    client: TorrentClient,
    hash: Seq<char>,
    first: ReplyView,
)
    ensures
        ({
            let form = seq![("hashes"@, hash)];
            let stop = client.form("/api/v2/torrents/stop"@, form);
            let pause = client.form("/api/v2/torrents/pause"@, form);
            let command = CommandView::Stop { hash };
            &&& client.command_step(command, seq![]) == StepView::Send(stop)
            &&& not_found(first) ==> client.command_step(command, seq![first]) == StepView::Send(
                pause,
            )
            &&& !not_found(first) ==> client.command_step(command, seq![first]) == verdict(
                stop.url,
                first,
            )
        }),
{
    let form = seq![("hashes"@, hash)];
    let requests = seq![
        client.form("/api/v2/torrents/stop"@, form),
        client.form("/api/v2/torrents/pause"@, form),
    ];
    law_next_endpoint_is_asked(requests, seq![], ErrorView::NoStopEndpoint);
    if not_found(first) {
        law_next_endpoint_is_asked(requests, seq![first], ErrorView::NoStopEndpoint);
    } else {
        law_found_endpoint_settles(requests, seq![first], ErrorView::NoStopEndpoint, 0);
    }
}

/// An operation of one request sends it and is settled by the first reply. It fails where the
/// server cannot be reached, where the status is one from 400 to 599 or where the body cannot be
/// read, each with what the reply says of it, and succeeds otherwise.
pub proof fn law_reply_settles_a_request(request: RequestView, replies: Seq<ReplyView>)
    ensures
        replies.len() == 0 ==> one_request(request, replies) == StepView::Send(request),
        replies.len() > 0 ==> one_request(request, replies) == (match replies[0] {
            ReplyView::Unreachable { cause } => StepView::Fail(
                ErrorView::RequestFailed { url: request.url, cause },
            ),
            ReplyView::Answer { status, complaint, .. } => if status < 400 || status >= 600 {
                StepView::Done
            } else {
                StepView::Fail(ErrorView::ErrorStatus { url: request.url, status, complaint })
            },
            ReplyView::Unreadable { cause } => StepView::Fail(ErrorView::UnreadableBody { cause }),
        }),
{
}

/// What a command first asks of the API: the endpoint below the server's URL, and the fields of
/// the form.
pub proof fn law_each_command_has_its_request(client: TorrentClient, command: CommandView)
    ensures
        ({
            let (path, fields) = match command {
                CommandView::SetCategory { hash, category, .. } => (
                    "/api/v2/torrents/setCategory"@,
                    seq![("hashes"@, hash), ("category"@, category)],
                ),
                CommandView::AddTags { hash, tags } => (
                    "/api/v2/torrents/addTags"@,
                    seq![("hashes"@, hash), ("tags"@, tags)],
                ),
                CommandView::RemoveTags { hash, tags } => (
                    "/api/v2/torrents/removeTags"@,
                    seq![("hashes"@, hash), ("tags"@, tags)],
                ),
                CommandView::Stop { hash } => ("/api/v2/torrents/stop"@, seq![("hashes"@, hash)]),
                CommandView::Start { hash } => (
                    "/api/v2/torrents/start"@,
                    seq![("hashes"@, hash)],
                ),
                CommandView::Recheck { hash } => (
                    "/api/v2/torrents/recheck"@,
                    seq![("hashes"@, hash)],
                ),
                CommandView::Remove { hash, delete_files } => (
                    "/api/v2/torrents/delete"@,
                    seq![
                        ("hashes"@, hash),
                        (
                            "deleteFiles"@,
                            if delete_files {
                                "true"@
                            } else {
                                "false"@
                            },
                        ),
                    ],
                ),
                CommandView::SetLocation { hash, location } => (
                    "/api/v2/torrents/setLocation"@,
                    seq![("hashes"@, hash), ("location"@, location)],
                ),
            };
            client.command_step(command, Seq::empty()) == StepView::Send(
                RequestView {
                    method: Method::Post,
                    url: text::trim_slashes(client.server.qbit_url@) + path,
                    headers: Seq::empty(),
                    fields,
                    reads_body: false,
                },
            )
        }),
{
    reveal_with_fuel(first_found, 2);
}

/// A command is settled by the first reply to its request, unless the reply is one that another
/// request can make up for: not found, for stopping and starting, or a conflict, for a category
/// that may be created.
pub proof fn law_first_reply_settles_a_command(
    client: TorrentClient,
    command: CommandView,
    reply: ReplyView,
)
    requires
        command is Stop || command is Start ==> !(reply matches ReplyView::Answer { status, .. }
            && status == 404),
        command matches CommandView::SetCategory { create, .. } ==> !create || !(
        reply matches ReplyView::Answer { status, .. } && status == 409),
    ensures
        client.command_step(command, Seq::empty()) matches StepView::Send(request)
            && client.command_step(command, seq![reply]) == one_request(request, seq![reply]),
{
    reveal_with_fuel(first_found, 2);
}

/// A torrent is started by the newer endpoint; the older one is asked exactly when that is not
/// there, and where neither is there the command fails. The same holds of stopping one.
pub proof fn law_older_endpoint_is_the_last_resort(
    client: TorrentClient,
    hash: Seq<char>,
    first: ReplyView,
    second: ReplyView,
)
    requires
        first matches ReplyView::Answer { status, .. } && status == 404,
    ensures
        ({
            let fields = seq![("hashes"@, hash)];
            let base = text::trim_slashes(client.server.qbit_url@);
            let resume = RequestView {
                method: Method::Post,
                url: base + "/api/v2/torrents/resume"@,
                headers: Seq::empty(),
                fields,
                reads_body: false,
            };
            let pause = RequestView { url: base + "/api/v2/torrents/pause"@, ..resume };
            let start = CommandView::Start { hash };
            let stop = CommandView::Stop { hash };
            let missing = second matches ReplyView::Answer { status, .. } && status == 404;
            &&& client.command_step(start, seq![first]) == StepView::Send(resume)
            &&& client.command_step(start, seq![first, second]) == (if missing {
                StepView::Fail(ErrorView::NoStartEndpoint)
            } else {
                one_request(resume, seq![second])
            })
            &&& client.command_step(stop, seq![first]) == StepView::Send(pause)
            &&& client.command_step(stop, seq![first, second]) == (if missing {
                StepView::Fail(ErrorView::NoStopEndpoint)
            } else {
                one_request(pause, seq![second])
            })
        }),
{
    reveal_with_fuel(first_found, 3);
    let fields = seq![("hashes"@, hash)];
    let starts = seq![
        client.form("/api/v2/torrents/start"@, fields),
        client.form("/api/v2/torrents/resume"@, fields),
    ];
    let stops = seq![
        client.form("/api/v2/torrents/stop"@, fields),
        client.form("/api/v2/torrents/pause"@, fields),
    ];
    assert(starts.drop_first() =~= seq![starts[1]]);
    assert(stops.drop_first() =~= seq![stops[1]]);
    assert(seq![first].drop_first() =~= Seq::empty());
    assert(seq![first, second].drop_first() =~= seq![second]);
}

/// Where a category is missing and may be created, its creation is asked for, and a failure of
/// that is the command's; after it the torrent is put into the category, and the reply to that
/// settles the command.
pub proof fn law_category_is_set_after_its_creation(
    client: TorrentClient,
    hash: Seq<char>,
    category: Seq<char>,
    clash: ReplyView,
    made: ReplyView,
    again: ReplyView,
)
    requires
        clash matches ReplyView::Answer { status, .. } && status == 409,
    ensures
        ({
            let base = text::trim_slashes(client.server.qbit_url@);
            let set = RequestView {
                method: Method::Post,
                url: base + "/api/v2/torrents/setCategory"@,
                headers: Seq::empty(),
                fields: seq![("hashes"@, hash), ("category"@, category)],
                reads_body: false,
            };
            let make = RequestView {
                url: base + "/api/v2/torrents/createCategory"@,
                fields: seq![("category"@, category)],
                ..set
            };
            let command = CommandView::SetCategory { hash, category, create: true };
            &&& client.command_step(command, seq![clash]) == StepView::Send(make)
            &&& client.command_step(command, seq![clash, made]) == (if one_request(
                make,
                seq![made],
            ) is Done {
                StepView::Send(set)
            } else {
                one_request(make, seq![made])
            })
            &&& one_request(make, seq![made]) is Done ==> client.command_step(
                command,
                seq![clash, made, again],
            ) == one_request(set, seq![again])
        }),
{
    let two = seq![clash, made];
    let three = seq![clash, made, again];
    assert(seq![clash].skip(1) =~= Seq::empty());
    assert(two.skip(1) =~= seq![made]);
    assert(two.skip(2) =~= Seq::empty());
    assert(three.skip(1) =~= seq![made, again]);
    assert(three.skip(2) =~= seq![again]);
}

/// A login posts the username and the password. It fails as unreachable where the request does,
/// with the request's error for a cause, and as refused where the answer is not `Ok.`.
pub proof fn law_login_posts_the_credentials(client: TorrentClient, reply: ReplyView)
    requires
        client.server.username@.len() > 0,
    ensures
        ({
            let request = RequestView {
                method: Method::Post,
                url: text::trim_slashes(client.server.qbit_url@) + "/api/v2/auth/login"@,
                headers: Seq::empty(),
                fields: seq![
                    ("username"@, client.server.username@),
                    ("password"@, client.server.password@),
                ],
                reads_body: true,
            };
            let qbit_url = client.server.qbit_url@;
            let after = client.login_step(seq![reply]);
            &&& client.login_step(Seq::empty()) == StepView::Send(request)
            &&& match reply {
                ReplyView::Unreachable { cause } => after == StepView::Fail(
                    ErrorView::LoginFailed {
                        qbit_url,
                        cause: error_text(ErrorView::RequestFailed { url: request.url, cause }),
                    },
                ),
                ReplyView::Unreadable { cause } => after == StepView::Fail(
                    ErrorView::UnreadableBody { cause },
                ),
                ReplyView::Answer { status, body, complaint } => if 400 <= status < 600 {
                    after == StepView::Fail(
                        ErrorView::LoginFailed {
                            qbit_url,
                            cause: error_text(
                                ErrorView::ErrorStatus { url: request.url, status, complaint },
                            ),
                        },
                    )
                } else if text::trimmed(body) == "Ok."@ {
                    after is Done
                } else {
                    after == StepView::Fail(ErrorView::AuthenticationFailed { qbit_url })
                },
            }
        }),
{
}

/// A logout is one request without fields; its reply settles it.
pub proof fn law_logout_is_one_request(client: TorrentClient, replies: Seq<ReplyView>)
    requires
        client.server.username@.len() > 0,
    ensures
        client.logout_step(replies) == one_request(
            RequestView {
                method: Method::Post,
                url: text::trim_slashes(client.server.qbit_url@) + "/api/v2/auth/logout"@,
                headers: Seq::empty(),
                fields: Seq::empty(),
                reads_body: false,
            },
            replies,
        ),
{
}

/// A query reads the body of what the endpoint below the server's URL answers.
pub proof fn law_query_reads_the_answer(
    client: TorrentClient,
    path: Seq<char>,
    fields: Seq<(Seq<char>, Seq<char>)>,
)
    ensures
        ({
            let r = client.query(path, fields);
            &&& r.method == Method::Get
            &&& r.url == text::trim_slashes(client.server.qbit_url@) + path
            &&& r.headers.len() == 0
            &&& r.fields == fields
            &&& r.reads_body
        }),
{
}

/// The text of each error says what failed, with the values that it holds.
pub proof fn law_error_texts(a: Seq<char>, b: Seq<char>, status: u16)
    ensures
        error_text(ErrorView::RequestFailed { url: a, cause: b }) == "Request to "@ + a
            + " failed: "@ + b,
        error_text(ErrorView::ErrorStatus { url: a, status, complaint: b }) == "Request to "@ + a
            + " returned an error status: "@ + b,
        error_text(ErrorView::UnreadableBody { cause: a }) == a,
        error_text(ErrorView::LoginFailed { qbit_url: a, cause: b })
            == "Failed to reach qBittorrent at "@ + a + ": "@ + b,
        error_text(ErrorView::AuthenticationFailed { qbit_url: a }) == "Authentication failed for "@
            + a + " (check username/password)"@,
        error_text(ErrorView::NoStopEndpoint)
            == "Neither torrents/stop nor torrents/pause is available on this qBittorrent version"@,
        error_text(ErrorView::NoStartEndpoint)
            == "Neither torrents/start nor torrents/resume is available on this qBittorrent version"@,
        error_text(ErrorView::NoMappingEndpoint { label: a }) == a
            + ": no remotepathmapping endpoint found (tried /api/v3 and /api/v1)"@,
        error_text(ErrorView::PathOutsidePrefix { path: a, prefix: b }) == "Torrent path "@
            + shown::debug_path(a) + " does not start with configured path_prefix "@
            + shown::debug_text(b),
        error_text(ErrorView::NoSavePath { category: a })
            == "qBittorrent has no save path for category '"@ + a + "'"@,
{
}

/// The view of a command, a request or a reply holds all that it holds.
pub proof fn law_views_hide_nothing(
    hash: String,
    value: String,
    yes: bool,
    status: u16,
    request: ApiRequest,
    i: int,
)
    ensures
        (Command::SetCategory { hash, category: value, create: yes })@ == (
        CommandView::SetCategory { hash: hash@, category: value@, create: yes }),
        (Command::AddTags { hash, tags: value })@ == (CommandView::AddTags {
            hash: hash@,
            tags: value@,
        }),
        (Command::RemoveTags { hash, tags: value })@ == (CommandView::RemoveTags {
            hash: hash@,
            tags: value@,
        }),
        (Command::Stop { hash })@ == (CommandView::Stop { hash: hash@ }),
        (Command::Start { hash })@ == (CommandView::Start { hash: hash@ }),
        (Command::Recheck { hash })@ == (CommandView::Recheck { hash: hash@ }),
        (Command::Remove { hash, delete_files: yes })@ == (CommandView::Remove {
            hash: hash@,
            delete_files: yes,
        }),
        (Command::SetLocation { hash, location: value })@ == (CommandView::SetLocation {
            hash: hash@,
            location: value@,
        }),
        request@.method == request.method && request@.url == request.url@ && request@.reads_body
            == request.reads_body,
        request@.headers.len() == request.headers@.len(),
        request@.fields.len() == request.fields@.len(),
        0 <= i < request.headers@.len() ==> request@.headers[i] == (
            request.headers@[i].0@,
            request.headers@[i].1@,
        ),
        0 <= i < request.fields@.len() ==> request@.fields[i] == (
            request.fields@[i].0@,
            request.fields@[i].1@,
        ),
        (Reply::Answer { status, body: hash, complaint: value })@ == (ReplyView::Answer {
            status,
            body: hash@,
            complaint: value@,
        }),
        (Reply::Unreachable { cause: value })@ == (ReplyView::Unreachable { cause: value@ }),
        (Reply::Unreadable { cause: value })@ == (ReplyView::Unreadable { cause: value@ }),
{
}

/// The view of an error or a step holds all that it holds, and that of a sequence has the view
/// of each member in its place.
pub proof fn law_views_keep_places(
    a: String,
    b: String,
    status: u16,
    request: ApiRequest,
    error: ClientError,
    commands: Seq<Command>,
    replies: Seq<Reply>,
    i: int,
)
    ensures
        (ClientError::RequestFailed { url: a, cause: b })@ == (ErrorView::RequestFailed {
            url: a@,
            cause: b@,
        }),
        (ClientError::ErrorStatus { url: a, status, complaint: b })@ == (ErrorView::ErrorStatus {
            url: a@,
            status,
            complaint: b@,
        }),
        (ClientError::UnreadableBody { cause: a })@ == (ErrorView::UnreadableBody { cause: a@ }),
        (ClientError::LoginFailed { qbit_url: a, cause: b })@ == (ErrorView::LoginFailed {
            qbit_url: a@,
            cause: b@,
        }),
        (ClientError::AuthenticationFailed { qbit_url: a })@ == (ErrorView::AuthenticationFailed {
            qbit_url: a@,
        }),
        (ClientError::NoStopEndpoint)@ is NoStopEndpoint,
        (ClientError::NoStartEndpoint)@ is NoStartEndpoint,
        (ClientError::NoMappingEndpoint { label: a })@ == (ErrorView::NoMappingEndpoint {
            label: a@,
        }),
        (ClientError::PathOutsidePrefix { path: a, prefix: b })@ == (
        ErrorView::PathOutsidePrefix { path: a@, prefix: b@ }),
        (ClientError::NoSavePath { category: a })@ == (ErrorView::NoSavePath { category: a@ }),
        (Step::Send(request))@ == StepView::Send(request@),
        (Step::Done)@ is Done,
        (Step::Fail(error))@ == StepView::Fail(error@),
        command_views(commands).len() == commands.len(),
        0 <= i < commands.len() ==> command_views(commands)[i] == commands[i]@,
        reply_views(replies).len() == replies.len(),
        0 <= i < replies.len() ==> reply_views(replies)[i] == replies[i]@,
{
}

} // verus!
