//! Fetching from the network.

use crate::capability::{Capability, CapabilityView};
use crate::error::{CoreError, CoreErrorView};
use crate::json::{field, text_of, unsigned_of, Json, JsonView};
use crate::text::{decimal, decimal_text, lossy_text, read_lossy, same, views};
use crate::tools::access::{missing_param, permitted, require, required_text};
use crate::tools::definition::{
    define, defined, entry, fields_view, object, optional_param, params_view, required_param, text,
    Param, ParamKind, ParamKindView, ParamView, ToolDefinition,
};
use crate::types::AgentId;
use vstd::prelude::*;
use vstd::string::*;

verus! {

/// How much of a body is read where nothing else is said, in bytes.
pub const DEFAULT_MAX_BYTES: u64 = 50_000;

/// How long a request may take, in seconds.
pub const TIMEOUT_SECS: u64 = 30;

/// How often a request may be sent elsewhere.
pub const MAX_REDIRECTS: usize = 5;

/// Fetches what is at a URL.
#[derive(Debug)]
pub struct WebFetchTool;

/// What a URL says of where it leads.
#[derive(Debug)]
pub struct UrlParts {
    pub scheme: String,
    pub host: Option<String>,
}

/// The scheme and the host of a URL, or what is wrong with it, as `url` reads
/// it.
pub uninterp spec fn url_parts(t: Seq<char>) -> Result<
    (Seq<char>, Option<Seq<char>>),
    Seq<char>,
>;

/// What the parts of a URL hold.
pub open spec fn parts_view(r: Result<UrlParts, String>) -> Result<
    (Seq<char>, Option<Seq<char>>),
    Seq<char>,
> {
    match r {
        Ok(p) => Ok(
            (
                p.scheme@,
                match p.host {
                    Some(h) => Some(h@),
                    None => None,
                },
            ),
        ),
        Err(e) => Err(e@),
    }
}

/// `reqwest::Url::parse`, with `scheme` and `host_str` of what it gives, or
/// its error in words: they depend on the text alone.
#[verifier::external_body]
fn read_url(t: &str) -> (r: Result<UrlParts, String>)
    ensures
        parts_view(r) == url_parts(t@),
{
    match reqwest::Url::parse(t) {
        Ok(u) => Ok(
            UrlParts { scheme: u.scheme().to_string(), host: u.host_str().map(|h| h.to_string()) },
        ),
        Err(e) => Err(e.to_string()),
    }
}

/// Why a URL cannot be fetched, by its parts.
pub open spec fn url_error(
    parts: Result<(Seq<char>, Option<Seq<char>>), Seq<char>>,
) -> Option<CoreErrorView> {
    match parts {
        Err(e) => Some(CoreErrorView::InvalidManifest("invalid URL: "@ + e)),
        Ok((scheme, host)) => if scheme != "http"@ && scheme != "https"@ {
            Some(
                CoreErrorView::InvalidManifest(
                    "unsupported URL scheme '"@ + scheme + "' — only http/https allowed"@,
                ),
            )
        } else if host is None {
            Some(CoreErrorView::InvalidManifest("URL has no host"@))
        } else {
            None
        },
    }
}

/// The host that a URL leads to, given its parts.
pub fn host_of(parts: Result<UrlParts, String>) -> (r: Result<String, CoreError>)
    ensures
        match r {
            Ok(host) => url_error(parts_view(parts)) is None && parts_view(parts)->Ok_0.1 == Some(
                host@,
            ),
            Err(e) => url_error(parts_view(parts)) == Some(e@),
        },
{
    match parts {
        Err(e) => {
            let mut m = "invalid URL: ".to_owned();
            m.append(e.as_str());
            Err(CoreError::InvalidManifest(m))
        },
        Ok(p) => {
            let scheme = p.scheme.as_str();
            if !same(scheme, "http") && !same(scheme, "https") {
                let mut m = "unsupported URL scheme '".to_owned();
                m.append(scheme);
                m.append("' — only http/https allowed");
                return Err(CoreError::InvalidManifest(m));
            }
            match p.host {
                Some(h) => Ok(h),
                None => Err(CoreError::InvalidManifest("URL has no host".to_owned())),
            }
        },
    }
}

/// A fetch that was asked for.
#[derive(Debug)]
pub struct FetchRequest {
    pub url: String,
    pub host: String,
    pub max_bytes: u64,
}

/// How much of a body an input asks for.
pub open spec fn wanted_bytes(input: JsonView) -> u64 {
    match unsigned_of(field(input, "max_bytes"@)) {
        Some(n) => n,
        None => DEFAULT_MAX_BYTES,
    }
}

/// Why a fetch cannot be asked for as it was.
pub open spec fn request_error(input: JsonView) -> Option<CoreErrorView> {
    match text_of(field(input, "url"@)) {
        None => Some(missing_param("url"@)),
        Some(url) => url_error(url_parts(url)),
    }
}

/// A body that is being read.
#[derive(Debug)]
pub struct Body {
    bytes: Vec<u8>,
    max_bytes: u64,
    truncated: bool,
}

impl Body {
    /// What was read.
    pub closed spec fn view(&self) -> Seq<u8> {
        self.bytes@
    }

    /// How much is read at most.
    pub closed spec fn limit(&self) -> u64 {
        self.max_bytes
    }

    /// Whether the limit was reached.
    pub closed spec fn is_truncated(&self) -> bool {
        self.truncated
    }

    /// No more is read than may be.
    #[verifier::type_invariant]
    spec fn wf(&self) -> bool {
        self.bytes@.len() <= self.max_bytes
    }

    /// Nothing is read yet.
    pub fn new(max_bytes: u64) -> (r: Body)
        ensures
            r@ == Seq::<u8>::empty(),
            r.limit() == max_bytes,
            !r.is_truncated(),
    {
        Body { bytes: Vec::new(), max_bytes, truncated: false }
    }

    /// Takes the next part of the body, as much of it as there is room for.
    /// Tells whether to go on: where the room is used up, nothing more is
    /// read.
    pub fn take(&mut self, chunk: &Vec<u8>) -> (r: bool)
        ensures
            final(self).limit() == old(self).limit(),
            r == (old(self)@.len() + chunk@.len() < old(self).limit()),
            final(self)@ == (if r {
                old(self)@ + chunk@
            } else {
                (old(self)@ + chunk@).take(old(self).limit() as int)
            }),
            final(self).is_truncated() == (old(self).is_truncated() || !r),
    {
        proof {
            use_type_invariant(&*self);
        }
        let ghost before = self.bytes@;
        let mut bytes: Vec<u8> = Vec::new();
        std::mem::swap(&mut bytes, &mut self.bytes);
        let remaining: u64 = self.max_bytes - bytes.len() as u64;
        let full = chunk.len() as u64 >= remaining;
        let taken: usize = if full {
            remaining as usize
        } else {
            chunk.len()
        };
        let mut i: usize = 0;
        assert(before + chunk@.take(0) =~= before);
        while i < taken
            invariant
                0 <= i <= taken <= chunk@.len(),
                bytes@ == before + chunk@.take(i as int),
            decreases taken - i,
        {
            bytes.push(chunk[i]);
            assert(before + chunk@.take(i + 1) =~= (before + chunk@.take(i as int)).push(
                chunk@[i as int],
            ));
            i += 1;
        }
        assert(full ==> before + chunk@.take(taken as int) =~= (before + chunk@).take(
            self.max_bytes as int,
        ));
        assert(!full ==> chunk@.take(taken as int) =~= chunk@);
        self.bytes = bytes;
        if full {
            self.truncated = true;
        }
        !full
    }

    /// What was read.
    pub fn bytes(&self) -> (r: &Vec<u8>)
        ensures
            r@ == self@,
    {
        &self.bytes
    }

    /// Whether the limit was reached.
    pub fn truncated(&self) -> (r: bool)
        ensures
            r == self.is_truncated(),
    {
        self.truncated
    }
}

/// What is read of a body that comes in parts, as far as they are taken.
pub open spec fn read_of(parts: Seq<Seq<u8>>, max_bytes: nat) -> Seq<u8>
    decreases parts.len(),
{
    if parts.len() == 0 {
        Seq::empty()
    } else {
        let before = read_of(parts.drop_last(), max_bytes);
        let with = before + parts.last();
        if with.len() < max_bytes {
            with
        } else {
            with.take(max_bytes as int)
        }
    }
}

/// What is read is the beginning of the body, whatever the parts are that it
/// comes in.
pub proof fn law_read_is_the_beginning(parts: Seq<Seq<u8>>, max_bytes: nat)
    ensures
        read_of(parts, max_bytes) == if parts.flatten().len() <= max_bytes {
            parts.flatten()
        } else {
            parts.flatten().take(max_bytes as int)
        },
    decreases parts.len(),
{
    if parts.len() == 0 {
        reveal_with_fuel(Seq::flatten, 1);
        assert(parts.flatten() =~= Seq::<u8>::empty());
    } else {
        let front = parts.drop_last();
        law_read_is_the_beginning(front, max_bytes);
        parts.lemma_flatten_and_flatten_alt_are_equivalent();
        front.lemma_flatten_and_flatten_alt_are_equivalent();
        assert(parts.flatten() == front.flatten() + parts.last());
        let whole = parts.flatten();
        let with = read_of(front, max_bytes) + parts.last();
        if front.flatten().len() <= max_bytes {
            assert(with == whole);
            if with.len() >= max_bytes {
                if whole.len() == max_bytes {
                    assert(with.take(max_bytes as int) =~= whole);
                }
            }
        } else {
            assert(with.take(max_bytes as int) =~= whole.take(max_bytes as int));
        }
    }
}

/// What is answered to a fetch.
pub open spec fn fetch_answer(
    status: u16,
    content_type: Seq<char>,
    body: Seq<char>,
    truncated: bool,
    bytes_read: nat,
) -> JsonView {
    JsonView::Object(
        seq![
            ("status"@, JsonView::Unsigned(status as u64)),
            ("content_type"@, JsonView::Text(content_type)),
            ("body"@, JsonView::Text(body)),
            ("truncated"@, JsonView::Bool(truncated)),
            ("bytes_read"@, JsonView::Unsigned(bytes_read as u64)),
        ],
    )
}

/// What the tool takes.
pub open spec fn fetch_params() -> Seq<ParamView> {
    seq![
        required_param("url"@, ParamKindView::Text, "URL to fetch"@),
        optional_param(
            "max_bytes"@,
            ParamKindView::Number,
            "Max response body size in bytes (default 50000)"@,
        ),
    ]
}

/// A list of one text.
fn only(t: &str) -> (r: Vec<String>)
    ensures
        views(r@) == seq![t@],
{
    let mut v: Vec<String> = Vec::new();
    v.push(t.to_owned());
    assert(views(v@) =~= seq![t@]);
    v
}

impl WebFetchTool {
    /// What the tool is.
    pub fn definition(&self) -> (r: ToolDefinition)
        ensures
            r@ == defined(
                "web_fetch"@,
                "Fetch a URL via HTTP GET. Returns status, content type, and body text."@,
                fetch_params(),
            ),
    {
        let mut params: Vec<Param> = Vec::new();
        params.push(Param::required("url", ParamKind::Text, "URL to fetch"));
        params.push(
            Param::optional(
                "max_bytes",
                ParamKind::Number,
                "Max response body size in bytes (default 50000)",
            ),
        );
        assert(params_view(params@) =~= fetch_params());
        define(
            "web_fetch",
            "Fetch a URL via HTTP GET. Returns status, content type, and body text.",
            &params,
        )
    }

    /// The fetch that an input asks for.
    pub fn parse(&self, input: &Json) -> (r: Result<FetchRequest, CoreError>)
        ensures
            match r {
                Ok(q) => {
                    &&& request_error(input@) is None
                    &&& text_of(field(input@, "url"@)) == Some(q.url@)
                    &&& url_parts(q.url@)->Ok_0.1 == Some(q.host@)
                    &&& q.max_bytes == wanted_bytes(input@)
                },
                Err(e) => request_error(input@) == Some(e@),
            },
    {
        let url = match required_text(input, "url") {
            Ok(t) => t,
            Err(e) => {
                return Err(e);
            },
        };
        let max_bytes: u64 = match input.get_u64("max_bytes") {
            Some(n) => n,
            None => DEFAULT_MAX_BYTES,
        };
        match host_of(read_url(url.as_str())) {
            Ok(host) => Ok(FetchRequest { url, host, max_bytes }),
            Err(e) => Err(e),
        }
    }

    /// Lets an agent fetch from a host.
    pub fn authorize(&self, agent_id: AgentId, host: &str, permits: &Vec<bool>) -> (r: Result<
        (),
        CoreError,
    >)
        ensures
            match r {
                Ok(_) => permitted(permits@),
                Err(e) => !permitted(permits@) && e@ == (CoreErrorView::CapabilityDenied {
                    agent_id,
                    capability: CapabilityView::NetworkAccess { hosts: seq![host@] },
                    reason: "web_fetch not permitted for host: "@ + host@,
                }),
            },
    {
        let access = Capability::NetworkAccess { hosts: only(host) };
        require(agent_id, permits, access, "web_fetch not permitted for host: ", host)
    }

    /// Refuses a body that is said to be far too large.
    pub fn check_length(&self, content_length: Option<u64>, max_bytes: u64) -> (r: Result<
        (),
        CoreError,
    >)
        ensures
            match r {
                Ok(_) => content_length is None || content_length->0 <= max_bytes * 10,
                Err(e) => content_length is Some && content_length->0 > max_bytes * 10 && e@
                    == CoreErrorView::Ipc(
                    "response body too large: content-length "@ + decimal(
                        content_length->0 as nat,
                    ) + " exceeds 10x max_bytes "@ + decimal(max_bytes as nat),
                ),
            },
    {
        match content_length {
            Some(len) => {
                if len as u128 > (max_bytes as u128) * 10 {
                    let mut m = "response body too large: content-length ".to_owned();
                    let a = decimal_text(len);
                    m.append(a.as_str());
                    m.append(" exceeds 10x max_bytes ");
                    let b = decimal_text(max_bytes);
                    m.append(b.as_str());
                    return Err(CoreError::Ipc(m));
                }
                Ok(())
            },
            None => Ok(()),
        }
    }

    /// What is answered to a fetch.
    pub fn answer(&self, status: u16, content_type: Option<&str>, body: &Body) -> (r: Json)
        ensures
            r@ == fetch_answer(
                status,
                match content_type {
                    Some(t) => t@,
                    None => "unknown"@,
                },
                lossy_text(body@),
                body.is_truncated(),
                body@.len(),
            ),
    {
        let shown = read_lossy(&body.bytes);
        self.answer_with(status, content_type, body, shown.as_str())
    }

    /// What is answered to a fetch; `shown` is the body as text.
    pub fn answer_with(&self, status: u16, content_type: Option<&str>, body: &Body, shown: &str)
        -> (r: Json)
        ensures
            r@ == fetch_answer(
                status,
                match content_type {
                    Some(t) => t@,
                    None => "unknown"@,
                },
                shown@,
                body.is_truncated(),
                body@.len(),
            ),
    {
        let kind: &str = match content_type {
            Some(t) => t,
            None => "unknown",
        };
        let mut f: Vec<(String, Json)> = Vec::new();
        f.push(entry("status", Json::Unsigned(status as u64)));
        f.push(entry("content_type", text(kind)));
        f.push(entry("body", text(shown)));
        f.push(entry("truncated", Json::Bool(body.truncated)));
        f.push(entry("bytes_read", Json::Unsigned(body.bytes.len() as u64)));
        assert(fields_view(f@) =~= fetch_answer(
            status,
            kind@,
            shown@,
            body.is_truncated(),
            body@.len(),
        )->Object_0);
        object(f)
    }
}

/// Only pages of a host are fetched, by the two schemes of the web.
pub proof fn law_addresses_that_are_fetched(scheme: Seq<char>, host: Option<Seq<char>>)
    ensures
        url_error(Ok((scheme, host))) is None <==> (scheme == "http"@ || scheme == "https"@)
            && host is Some,
        forall|e: Seq<char>|
            #![trigger url_error(Err::<(Seq<char>, Option<Seq<char>>), Seq<char>>(e))]
            url_error(Err::<(Seq<char>, Option<Seq<char>>), Seq<char>>(e)) is Some,
{
}

/// As many bytes are read as were asked for, and fifty thousand where nothing
/// was said.
pub proof fn law_how_much_is_fetched(input: JsonView, n: u64)
    ensures
        field(input, "max_bytes"@) is None ==> wanted_bytes(input) == 50_000,
        field(input, "max_bytes"@) == Some(JsonView::Unsigned(n)) ==> wanted_bytes(input) == n,
{
}

/// The answer tells how the server answered and what was read.
pub proof fn law_answer_tells_of_the_page(
    status: u16,
    content_type: Seq<char>,
    body: Seq<char>,
    truncated: bool,
    bytes_read: u64,
)
    ensures
        ({
            let a = fetch_answer(
                status,
                content_type,
                body,
                truncated,
                bytes_read as nat,
            )->Object_0;
            &&& a.contains(("status"@, JsonView::Unsigned(status as u64)))
            &&& a.contains(("content_type"@, JsonView::Text(content_type)))
            &&& a.contains(("body"@, JsonView::Text(body)))
            &&& a.contains(("truncated"@, JsonView::Bool(truncated)))
            &&& a.contains(("bytes_read"@, JsonView::Unsigned(bytes_read)))
        }),
{
    let a = fetch_answer(status, content_type, body, truncated, bytes_read as nat)->Object_0;
    assert(a[0].0 == "status"@ && a[1].0 == "content_type"@ && a[2].0 == "body"@);
    assert(a[3].0 == "truncated"@ && a[4].0 == "bytes_read"@);
}

/// What the tool says it needs, it needs: a request without it is refused, and
/// nothing else has to be given.
pub proof fn law_required_parameters_are_needed(input: JsonView, i: int)
    requires
        0 <= i < fetch_params().len(),
    ensures
        fetch_params()[i].required <==> (fetch_params()[i].name == "url"@),
        fetch_params()[i].required && text_of(field(input, fetch_params()[i].name)) is None ==> request_error(
            input,
        ) is Some,
{
    reveal_strlit("url");
    reveal_strlit("max_bytes");
    assert("url"@.len() == 3 && "url"@[0] == 'u');
    assert("max_bytes"@.len() == 9 && "max_bytes"@[0] == 'm');
}

} // verus!
