//! Where the daemon is reached: a unix socket, a named pipe, or a port of
//! the loopback interface.
use crate::daemon::address;
use crate::daemon::address::TcpAddress;
use crate::platform;
use crate::platform::{native_platform, Platform};
use crate::text;
use crate::text::{byte_len, chars_of, code_of, contains, contains_char, joined, strip_prefix};
use vstd::prelude::*;

verus! {

/// A parsed daemon endpoint.
#[derive(Debug, Clone, PartialEq, Eq)]
pub enum Endpoint {
    /// A path in the file system.
    Unix(String),
    /// A pipe's name without its directory, such as `meridian-relay`.
    NamedPipe(String),
    Tcp(TcpAddress),
}

/// An `Endpoint` with its text as characters.
pub ghost enum EndpointView {
    Unix(Seq<char>),
    NamedPipe(Seq<char>),
    Tcp(TcpAddress),
}

impl View for Endpoint {
    type V = EndpointView;

    open spec fn view(&self) -> EndpointView {
        match self {
            Endpoint::Unix(p) => EndpointView::Unix(p@),
            Endpoint::NamedPipe(n) => EndpointView::NamedPipe(n@),
            Endpoint::Tcp(a) => EndpointView::Tcp(*a),
        }
    }
}

/// Whether `c` is a control character (Unicode's category Cc).
pub open spec fn is_control(c: char) -> bool {
    c <= '\u{1f}' || '\u{7f}' <= c <= '\u{9f}'
}

/// Whether `name` can be the name of a pipe: not empty, at most 256 bytes,
/// and nothing in it that leads elsewhere.
pub open spec fn pipe_name_ok(name: Seq<char>) -> bool {
    &&& name.len() > 0
    &&& text::utf8_len(name) <= 256
    &&& !name.contains('/')
    &&& !name.contains('\\')
    &&& !text::contains_text(name, ".."@)
    &&& forall|i: int| 0 <= i < name.len() ==> !is_control(#[trigger] name[i])
}

/// The message for a pipe name that is refused.
pub open spec fn bad_pipe_text(name: Seq<char>) -> Seq<char> {
    "invalid pipe name: '"@ + name + "'"@
}

/// The message for a text that is no address with a port.
pub open spec fn bad_tcp_text(addr: Seq<char>) -> Seq<char> {
    "invalid tcp endpoint '"@ + addr + "': invalid socket address syntax"@
}

/// The message for an address outside the host.
pub open spec fn not_loopback_text() -> Seq<char> {
    "TCP endpoint must be loopback (the IPC protocol is unauthenticated)"@
}

/// The endpoint that a pipe's name gives.
pub open spec fn pipe_endpoint(name: Seq<char>) -> Result<EndpointView, Seq<char>> {
    if pipe_name_ok(name) {
        Ok(EndpointView::NamedPipe(name))
    } else {
        Err(bad_pipe_text(name))
    }
}

/// The endpoint that an address gives. Only addresses of the host itself are
/// taken.
pub open spec fn tcp_endpoint(addr: Seq<char>) -> Result<EndpointView, Seq<char>> {
    match address::address_of(addr) {
        Some(a) => if a.loopback() {
            Ok(EndpointView::Tcp(a))
        } else {
            Err(not_loopback_text())
        },
        None => Err(bad_tcp_text(addr)),
    }
}

/// The endpoint that a text gives: by its scheme, or, without one, a path on
/// unix and a pipe's name on Windows.
pub open spec fn endpoint_of(platform: Platform, s: Seq<char>) -> Result<EndpointView, Seq<char>> {
    if text::has_prefix(s, "unix:"@) {
        Ok(EndpointView::Unix(s.skip("unix:"@.len() as int)))
    } else if text::has_prefix(s, "pipe:"@) {
        pipe_endpoint(s.skip("pipe:"@.len() as int))
    } else if text::has_prefix(s, "tcp:"@) {
        tcp_endpoint(s.skip("tcp:"@.len() as int))
    } else {
        match platform {
            Platform::Unix => Ok(EndpointView::Unix(s)),
            Platform::Windows => pipe_endpoint(s),
        }
    }
}

/// Whether `r` is the result `want`, text taken as characters.
pub open spec fn endpoint_result_is(
    r: Result<Endpoint, String>,
    want: Result<EndpointView, Seq<char>>,
) -> bool {
    match r {
        Ok(e) => want == Ok::<EndpointView, Seq<char>>(e@),
        Err(m) => want == Err::<EndpointView, Seq<char>>(m@),
    }
}

/// Whether a text has a control character.
fn has_control(s: &str) -> (b: bool)
    ensures
        b == exists|i: int| 0 <= i < s@.len() && is_control(#[trigger] s@[i]),
{
    let cs = chars_of(s);
    let mut i: usize = 0;
    while i < cs.len()
        invariant
            cs@ == s@,
            i <= cs@.len(),
            forall|j: int| 0 <= j < i ==> !is_control(#[trigger] cs@[j]),
        decreases cs@.len() - i,
    {
        let code: u32 = code_of(cs[i]);
        if code <= 0x1F || (0x7F <= code && code <= 0x9F) {
            assert(is_control(s@[i as int]));
            return true;
        }
        i = i + 1;
    }
    false
}

impl Endpoint {
    /// Reads an endpoint as it is written on this system.
    pub fn parse(input: &str) -> (r: Result<Self, String>)
        ensures
            exists|b: bool| #[trigger]
                call_ensures(std::path::is_separator, ('\\',), b) && endpoint_result_is(
                    r,
                    endpoint_of(platform::platform_of(b), input@),
                ),
    {
        Self::parse_for(native_platform(), input)
    }

    /// Reads an endpoint. A value without a scheme is a path on unix and a
    /// pipe's name on Windows.
    pub fn parse_for(platform: Platform, input: &str) -> (r: Result<Self, String>)
        ensures
            endpoint_result_is(r, endpoint_of(platform, input@)),
    {
        if let Some(rest) = strip_prefix(input, "unix:") {
            return Ok(Endpoint::Unix(rest));
        }
        if let Some(rest) = strip_prefix(input, "pipe:") {
            return Self::parse_pipe(rest.as_str());
        }
        if let Some(rest) = strip_prefix(input, "tcp:") {
            return Self::parse_tcp(rest.as_str());
        }
        match platform {
            Platform::Unix => Ok(Endpoint::Unix(input.to_owned())),
            Platform::Windows => Self::parse_pipe(input),
        }
    }

    fn parse_pipe(name: &str) -> (r: Result<Self, String>)
        ensures
            endpoint_result_is(r, pipe_endpoint(name@)),
    {
        if name.is_empty() || byte_len(name) > 256 || contains_char(name, '/') || contains_char(
            name,
            '\\',
        ) || contains(name, "..") || has_control(name) {
            let mut m = joined("invalid pipe name: '", name);
            m.append("'");
            return Err(m);
        }
        Ok(Endpoint::NamedPipe(name.to_owned()))
    }

    fn parse_tcp(addr: &str) -> (r: Result<Self, String>)
        ensures
            endpoint_result_is(r, tcp_endpoint(addr@)),
    {
        match TcpAddress::parse(addr) {
            Some(a) => {
                if !a.is_loopback() {
                    let m = "TCP endpoint must be loopback (the IPC protocol is unauthenticated)";
                    return Err(m.to_owned());
                }
                Ok(Endpoint::Tcp(a))
            },
            None => {
                let mut m = joined("invalid tcp endpoint '", addr);
                m.append("': invalid socket address syntax");
                Err(m)
            },
        }
    }

    /// The endpoint as it is written, with its scheme.
    pub fn display_string(&self) -> (s: String)
        ensures
            s@ == shown(self@),
    {
        match self {
            Endpoint::Unix(p) => joined("unix:", p.as_str()),
            Endpoint::NamedPipe(n) => joined("pipe:", n.as_str()),
            Endpoint::Tcp(a) => joined("tcp:", a.to_text().as_str()),
        }
    }

    /// A copy of the endpoint.
    pub fn duplicate(&self) -> (e: Endpoint)
        ensures
            e@ == self@,
    {
        match self {
            Endpoint::Unix(p) => Endpoint::Unix(p.clone()),
            Endpoint::NamedPipe(n) => Endpoint::NamedPipe(n.clone()),
            Endpoint::Tcp(a) => Endpoint::Tcp(*a),
        }
    }
}

/// The endpoint as it is written, with its scheme.
pub open spec fn shown(e: EndpointView) -> Seq<char> {
    match e {
        EndpointView::Unix(p) => "unix:"@ + p,
        EndpointView::NamedPipe(n) => "pipe:"@ + n,
        EndpointView::Tcp(a) => "tcp:"@ + a.shown(),
    }
}

/// The full name of a named pipe.
pub open spec fn pipe_path(name: Seq<char>) -> Seq<char> {
    "\\\\.\\pipe\\"@ + name
}

/// The full name of a named pipe.
pub fn full_pipe_name(name: &str) -> (s: String)
    ensures
        s@ == pipe_path(name@),
{
    joined("\\\\.\\pipe\\", name)
}

proof fn schemes_are_distinct()
    ensures
        "unix:"@ =~= seq!['u', 'n', 'i', 'x', ':'],
        "pipe:"@ =~= seq!['p', 'i', 'p', 'e', ':'],
        "tcp:"@ =~= seq!['t', 'c', 'p', ':'],
{
    reveal_strlit("unix:");
    reveal_strlit("pipe:");
    reveal_strlit("tcp:");
}

/// Whether an endpoint is one that can be read: an address of the host, or a
/// pipe with a name that it may have, or any path.
pub open spec fn can_be_read(e: EndpointView) -> bool {
    match e {
        EndpointView::Unix(_) => true,
        EndpointView::NamedPipe(n) => pipe_name_ok(n),
        EndpointView::Tcp(a) => a.loopback(),
    }
}

/// Whether a text is told to be an endpoint of its kind by its scheme.
spec fn shown_by_scheme(s: Seq<char>, e: EndpointView) -> bool {
    match e {
        EndpointView::Unix(p) => text::has_prefix(s, "unix:"@) && s.skip("unix:"@.len() as int)
            == p,
        EndpointView::NamedPipe(n) => {
            &&& !text::has_prefix(s, "unix:"@)
            &&& text::has_prefix(s, "pipe:"@)
            &&& s.skip("pipe:"@.len() as int) == n
        },
        EndpointView::Tcp(a) => {
            &&& !text::has_prefix(s, "unix:"@)
            &&& !text::has_prefix(s, "pipe:"@)
            &&& text::has_prefix(s, "tcp:"@)
            &&& s.skip("tcp:"@.len() as int) == a.shown()
        },
    }
}

proof fn shown_has_its_scheme(e: EndpointView)
    ensures
        shown_by_scheme(shown(e), e),
{
    schemes_are_distinct();
    let w = shown(e);
    match e {
        EndpointView::Unix(p) => {
            assert(w.take(5) =~= "unix:"@);
            assert(w.skip(5) =~= p);
        },
        EndpointView::NamedPipe(n) => {
            assert(w.take(5) =~= "pipe:"@);
            assert(w.skip(5) =~= n);
            if text::has_prefix(w, "unix:"@) {
                assert(w.take(5)[0] == 'u');
            }
        },
        EndpointView::Tcp(a) => {
            assert(w.take(4) =~= "tcp:"@);
            assert(w.skip(4) =~= a.shown());
            assert(w.take(4)[0] == 't');
            if text::has_prefix(w, "unix:"@) {
                assert(w.take(5)[0] == 'u');
            }
            if text::has_prefix(w, "pipe:"@) {
                assert(w.take(5)[0] == 'p');
            }
        },
    }
}

/// Every endpoint that can be read reads back from the way it is written, on
/// either platform.
pub proof fn written_endpoint_reads_back(platform: Platform, e: EndpointView)
    requires
        can_be_read(e),
    ensures
        endpoint_of(platform, shown(e)) == Ok::<EndpointView, Seq<char>>(e),
{
    shown_has_its_scheme(e);
    if let EndpointView::Tcp(a) = e {
        address::written_address_reads_back(a);
    }
}

/// With a scheme, an endpoint is the same on either platform.
pub proof fn schemes_mean_the_same_everywhere(s: Seq<char>)
    requires
        text::has_prefix(s, "unix:"@) || text::has_prefix(s, "pipe:"@) || text::has_prefix(
            s,
            "tcp:"@,
        ),
    ensures
        endpoint_of(Platform::Unix, s) == endpoint_of(Platform::Windows, s),
{
}

/// Whatever is written, an internet endpoint is on the host itself, and a
/// pipe's name leads nowhere else.
pub proof fn endpoints_are_local(platform: Platform, s: Seq<char>)
    ensures
        endpoint_of(platform, s) matches Ok(e) ==> can_be_read(e),
{
}

/// The scheme says what kind of endpoint it is; what comes after it is the
/// path, the name or the address, and all of it.
pub proof fn schemes_say_the_kind(platform: Platform, p: Seq<char>, a: TcpAddress)
    ensures
        endpoint_of(platform, "unix:"@ + p) == Ok::<EndpointView, Seq<char>>(
            EndpointView::Unix(p),
        ),
        pipe_name_ok(p) ==> endpoint_of(platform, "pipe:"@ + p) == Ok::<EndpointView, Seq<char>>(
            EndpointView::NamedPipe(p),
        ),
        !pipe_name_ok(p) ==> endpoint_of(platform, "pipe:"@ + p) == Err::<EndpointView, Seq<char>>(
            "invalid pipe name: '"@ + p + "'"@,
        ),
        a.loopback() ==> endpoint_of(platform, "tcp:"@ + a.shown()) == Ok::<
            EndpointView,
            Seq<char>,
        >(EndpointView::Tcp(a)),
        !a.loopback() ==> endpoint_of(platform, "tcp:"@ + a.shown()) == Err::<
            EndpointView,
            Seq<char>,
        >("TCP endpoint must be loopback (the IPC protocol is unauthenticated)"@),
        address::address_of(p) is None ==> endpoint_of(platform, "tcp:"@ + p) == Err::<
            EndpointView,
            Seq<char>,
        >("invalid tcp endpoint '"@ + p + "': invalid socket address syntax"@),
{
    shown_has_its_scheme(EndpointView::Unix(p));
    shown_has_its_scheme(EndpointView::NamedPipe(p));
    shown_has_its_scheme(EndpointView::Tcp(a));
    address::written_address_reads_back(a);
    schemes_are_distinct();
    let w = "tcp:"@ + p;
    assert(w.take(4) =~= "tcp:"@);
    assert(w.skip(4) =~= p);
    assert(w[0] == 't');
    if text::has_prefix(w, "unix:"@) {
        assert(w.take(5)[0] == 'u');
    }
    if text::has_prefix(w, "pipe:"@) {
        assert(w.take(5)[0] == 'p');
    }
}

/// Without a scheme it is a path on unix and a pipe's name on Windows.
pub proof fn bare_texts_go_by_the_platform(s: Seq<char>)
    requires
        forall|i: int| 0 <= i < s.len() ==> #[trigger] s[i] != ':',
    ensures
        endpoint_of(Platform::Unix, s) == Ok::<EndpointView, Seq<char>>(EndpointView::Unix(s)),
        pipe_name_ok(s) ==> endpoint_of(Platform::Windows, s) == Ok::<EndpointView, Seq<char>>(
            EndpointView::NamedPipe(s),
        ),
        !pipe_name_ok(s) ==> endpoint_of(Platform::Windows, s) == Err::<EndpointView, Seq<char>>(
            "invalid pipe name: '"@ + s + "'"@,
        ),
{
    schemes_are_distinct();
    if text::has_prefix(s, "unix:"@) || text::has_prefix(s, "pipe:"@) {
        assert(s.take(5)[4] == ':');
        assert(s[4] != ':');
    }
    if text::has_prefix(s, "tcp:"@) {
        assert(s.take(4)[3] == ':');
        assert(s[3] != ':');
    }
}

/// Letters, digits, dashes and underlines name a pipe, up to 256 of them; what
/// could lead elsewhere does not, nor does a control character.
pub proof fn plain_names_are_pipe_names(s: Seq<char>, i: int)
    ensures
        0 < s.len() <= 256 && (forall|j: int|
            0 <= j < s.len() ==> 'a' <= #[trigger] s[j] <= 'z' || 'A' <= s[j] <= 'Z' || '0' <= s[j]
                <= '9' || s[j] == '-' || s[j] == '_') ==> pipe_name_ok(s),
        s.len() == 0 ==> !pipe_name_ok(s),
        text::utf8_len(s) > 256 ==> !pipe_name_ok(s),
        0 <= i < s.len() && (s[i] == '/' || s[i] == '\\') ==> !pipe_name_ok(s),
        0 <= i < s.len() && (s[i] <= '\u{1f}' || '\u{7f}' <= s[i] <= '\u{9f}') ==> !pipe_name_ok(s),
        0 <= i < s.len() - 1 && s[i] == '.' && s[i + 1] == '.' ==> !pipe_name_ok(s),
{
    reveal_strlit("..");
    if 0 <= i < s.len() {
        assert(s.contains(s[i]));
        if s[i] <= '\u{1f}' || '\u{7f}' <= s[i] <= '\u{9f}' {
            assert(is_control(s[i]));
        }
        if i < s.len() - 1 && s[i] == '.' && s[i + 1] == '.' {
            assert(s.subrange(i, i + 2) =~= ".."@);
            assert(text::stands_at(s, i, ".."@));
        }
    }
    if 0 < s.len() <= 256 && (forall|j: int|
        0 <= j < s.len() ==> 'a' <= #[trigger] s[j] <= 'z' || 'A' <= s[j] <= 'Z' || '0' <= s[j]
            <= '9' || s[j] == '-' || s[j] == '_') {
        assert(vstd::utf8::is_ascii_chars(s)) by {
            assert forall|j: int| 0 <= j < s.len() implies '\0' <= #[trigger] s[j] <= '\u{7f}' by {
            }
        }
        vstd::utf8::is_ascii_chars_encode_utf8(s);
        if text::contains_text(s, ".."@) {
            let k = choose|k: int| text::stands_at(s, k, ".."@);
            assert(s.subrange(k, k + 2)[0] == '.');
            assert(s[k] == '.');
        }
    }
}

/// How endpoints and pipes are written.
pub proof fn what_endpoints_are_written_as(p: Seq<char>, a: TcpAddress)
    ensures
        shown(EndpointView::Unix(p)) == "unix:"@ + p,
        shown(EndpointView::NamedPipe(p)) == "pipe:"@ + p,
        shown(EndpointView::Tcp(a)) == "tcp:"@ + a.shown(),
        pipe_path(p) == "\\\\.\\pipe\\"@ + p,
{
}

} // verus!
