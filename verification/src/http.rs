//! Choice of transport, and the bearer gate.
//!
//! Stdio is the default; HTTP exists for a remote client and fails closed: HTTP enabled without a
//! bearer token refuses to start, so there is never an open listener, and every request without the
//! exact `Authorization: Bearer <token>` header is refused.
//!
//! Enablement is the `--http [addr]` flag, and only the flag: instances launched by a plugin inherit
//! the environment, and an exported enable-variable would silently flip them to HTTP. The bind
//! address defaults to loopback (127.0.0.1:8642); `--bind <addr>` overrides it. The token comes from
//! `--token <tok>` or `GDKIT_HTTP_TOKEN` (the flag wins). Addresses are `ip:port` or a bare port
//! (bound on 127.0.0.1).
use vstd::prelude::*;

use crate::text;

verus! {

// ---- addresses ----------------------------------------------------------------------------------

#[derive(Clone, Copy, Debug, PartialEq, Eq, Structural)]
pub enum Ip {
    V4(u8, u8, u8, u8),
    V6(u128),
}

/// A socket address.
#[derive(Clone, Copy, Debug, PartialEq, Eq, Structural)]
pub struct Addr {
    pub ip: Ip,
    pub port: u16,
    /// An IPv6 address's flow information and scope; zero for IPv4.
    pub flow: u32,
    pub scope: u32,
}

impl Addr {
    /// The address of `port` on 127.0.0.1.
    pub open spec fn local(port: u16) -> Self {
        Addr { ip: Ip::V4(127, 0, 0, 1), port, flow: 0, scope: 0 }
    }

    pub open spec fn is_local(self) -> bool {
        match self.ip {
            Ip::V4(a, _, _, _) => a == 127,
            Ip::V6(n) => n == 1,
        }
    }

    /// Whether only this machine can reach the address.
    pub fn is_loopback(&self) -> (r: bool)
        ensures
            r == self.is_local(),
    {
        match self.ip {
            Ip::V4(a, _, _, _) => a == 127,
            Ip::V6(n) => n == 1,
        }
    }
}

/// Port of the default listen address, which is loopback: never wide open.
pub const DEFAULT_PORT: u16 = 8642;

/// Where the endpoint is mounted.
pub const ENDPOINT: &'static str = "/mcp";

/// The value of a run of digits.
pub open spec fn digits_value(s: Seq<char>) -> nat
    decreases s.len(),
{
    if s.len() == 0 {
        0
    } else {
        digits_value(s.drop_last()) * 10 + (s.last() as nat - '0' as nat) as nat
    }
}

/// The digits of a number that may carry a plus sign.
pub open spec fn unsigned_part(s: Seq<char>) -> Seq<char> {
    if s.len() > 0 && s[0] == '+' {
        s.skip(1)
    } else {
        s
    }
}

/// A bare port: digits, perhaps behind a plus sign, that make a number of sixteen bits.
pub open spec fn is_port(s: Seq<char>) -> bool {
    let d = unsigned_part(s);
    &&& d.len() > 0
    &&& forall|i: int| 0 <= i < d.len() ==> text::is_digit(#[trigger] d[i])
    &&& digits_value(d) <= 65535
}

proof fn lemma_digits_grow(s: Seq<char>, n: int)
    requires
        0 <= n <= s.len(),
    ensures
        digits_value(s.take(n)) <= digits_value(s),
    decreases s.len() - n,
{
    if n < s.len() {
        assert(s.take(n + 1).drop_last() =~= s.take(n));
        lemma_digits_grow(s, n + 1);
    } else {
        assert(s.take(n) =~= s);
    }
}

fn parse_port(s: &str) -> (r: Option<u16>)
    ensures
        match r {
            Some(p) => is_port(s@) && p as nat == digits_value(unsigned_part(s@)),
            None => !is_port(s@),
        },
{
    let c = text::chars_of(s);
    let from: usize = if c.len() > 0 && c[0] == '+' {
        1
    } else {
        0
    };
    let ghost d = unsigned_part(s@);
    assert(s@.skip(0) =~= s@);
    if from >= c.len() {
        return None;
    }
    let mut value: u32 = 0;
    let mut i: usize = from;
    while i < c.len()
        invariant
            c@ == s@,
            from <= i <= c@.len(),
            from <= 1,
            d == unsigned_part(s@),
            d =~= s@.skip(from as int),
            value <= 65535,
            value as nat == digits_value(d.take(i - from)),
            forall|k: int| 0 <= k < i - from ==> text::is_digit(#[trigger] d[k]),
        decreases c@.len() - i,
    {
        let ch = c[i];
        assert(d[i - from] == ch);
        if !text::digit(ch) {
            return None;
        }
        assert(d.take(i - from + 1).drop_last() =~= d.take(i - from));
        value = value * 10 + (ch as u32 - '0' as u32);
        if value > 65535 {
            proof {
                lemma_digits_grow(d, i - from + 1);
            }
            return None;
        }
        i = i + 1;
    }
    assert(d.take(d.len() as int) =~= d);
    Some(value as u16)
}

/// The address that a text stands for: what the socket-address notation makes of it, else a bare
/// port on loopback, else why it is none.
pub open spec fn addr_of(s: Seq<char>, parsed: Option<Addr>) -> Result<Addr, Seq<char>> {
    match parsed {
        Some(a) => Ok(a),
        None => if is_port(s) {
            Ok(Addr::local(digits_value(unsigned_part(s)) as u16))
        } else {
            Err("invalid address "@ + text::notation(s)
                + " — expected ip:port or a bare port"@)
        },
    }
}

/// `ip:port`, or a bare port bound on loopback. `parsed` is what the socket-address notation makes
/// of the text; which address an `ip:port` text stands for is the caller's to say.
pub fn parse_addr(s: &str, parsed: Option<Addr>) -> (r: Result<Addr, String>)
    ensures
        match r {
            Ok(a) => addr_of(s@, parsed) == Ok::<Addr, Seq<char>>(a),
            Err(e) => addr_of(s@, parsed) == Err::<Addr, Seq<char>>(e@),
        },
{
    if let Some(a) = parsed {
        return Ok(a);
    }
    match parse_port(s) {
        Some(port) => Ok(Addr { ip: Ip::V4(127, 0, 0, 1), port, flow: 0, scope: 0 }),
        None => {
            let mut e = "invalid address ".to_string();
            e.append(text::quote(s).as_str());
            e.append(" — expected ip:port or a bare port");
            Err(e)
        },
    }
}

// ---- the transport ------------------------------------------------------------------------------

/// How the server talks this run. Resolved once at startup.
#[derive(PartialEq)]
pub enum Transport {
    /// The default: JSON-RPC over stdin/stdout, exactly as when no flag is given.
    Stdio,
    Http(HttpOptions),
}

#[derive(PartialEq)]
pub struct HttpOptions {
    pub bind: Addr,
    /// The exact bearer token every request must present. Never empty: resolution refuses to
    /// produce `Http` without one (fail closed).
    pub token: String,
}

/// What a transport says.
pub enum TransportText {
    Stdio,
    Http(Addr, Seq<char>),
}

impl View for Transport {
    type V = TransportText;

    open spec fn view(&self) -> TransportText {
        match self {
            Transport::Stdio => TransportText::Stdio,
            Transport::Http(o) => TransportText::Http(o.bind, o.token@),
        }
    }
}

impl HttpOptions {
    /// The options as they may be logged, given how the address is written: the token can never
    /// reach a log line.
    pub fn redacted(&self, bind: &str) -> (r: String)
        ensures
            r@ == "HttpOptions { bind: "@ + bind@ + ", token: \"<redacted>\" }"@,
    {
        let mut out = "HttpOptions { bind: ".to_string();
        out.append(bind);
        out.append(", token: \"<redacted>\" }");
        out
    }

    /// Whether requests must name this machine as their host. A widened bind is reached via
    /// addresses or names not known in advance, so the check comes off there; the bearer gate is
    /// the boundary.
    pub fn checks_hosts(&self) -> (r: bool)
        ensures
            r == self.bind.is_local(),
    {
        self.bind.is_loopback()
    }
}

/// What the command line has said so far.
pub struct FlagsText {
    pub http: bool,
    pub addr: Option<Addr>,
    pub bind: Option<Addr>,
    pub token: Option<Seq<char>>,
}

pub open spec fn no_flags() -> FlagsText {
    FlagsText { http: false, addr: None, bind: None, token: None }
}

pub open spec fn unknown_text(arg: Seq<char>) -> Seq<char> {
    "unknown argument: "@ + arg
        + "\nusage: godot-mcp [--http [addr]] [--bind addr] [--token tok]"@
}

/// The command line read from its `i`-th argument on.
pub open spec fn read_flags(
    args: Seq<Seq<char>>,
    parsed: Seq<Option<Addr>>,
    i: int,
    flags: FlagsText,
) -> Result<FlagsText, Seq<char>>
    decreases args.len() - i,
{
    if i >= args.len() {
        Ok(flags)
    } else if args[i] == "--http"@ {
        if i + 1 < args.len() && !text::begins(args[i + 1], "--"@) {
            match addr_of(args[i + 1], parsed[i + 1]) {
                Err(e) => Err(e),
                Ok(a) => read_flags(
                    args,
                    parsed,
                    i + 2,
                    FlagsText { http: true, addr: Some(a), ..flags },
                ),
            }
        } else {
            read_flags(args, parsed, i + 1, FlagsText { http: true, ..flags })
        }
    } else if args[i] == "--bind"@ {
        if i + 1 >= args.len() {
            Err("--bind requires an address"@)
        } else {
            match addr_of(args[i + 1], parsed[i + 1]) {
                Err(e) => Err(e),
                Ok(a) => read_flags(args, parsed, i + 2, FlagsText { bind: Some(a), ..flags }),
            }
        }
    } else if args[i] == "--token"@ {
        if i + 1 >= args.len() {
            Err("--token requires a value"@)
        } else {
            read_flags(args, parsed, i + 2, FlagsText { token: Some(args[i + 1]), ..flags })
        }
    } else {
        Err(unknown_text(args[i]))
    }
}

pub const NO_TOKEN: &'static str = "HTTP transport enabled but no token set — refusing to start an open listener. Set GDKIT_HTTP_TOKEN or pass --token.";

/// The transport that the flags and the environment's token ask for.
pub open spec fn settled(flags: FlagsText, env_token: Option<Seq<char>>) -> Result<
    TransportText,
    Seq<char>,
> {
    if !flags.http {
        if flags.bind is Some {
            Err("--bind requires --http"@)
        } else if flags.token is Some {
            Err("--token requires --http"@)
        } else {
            Ok(TransportText::Stdio)
        }
    } else {
        let bind = match flags.bind {
            Some(a) => a,
            None => match flags.addr {
                Some(a) => a,
                None => Addr::local(DEFAULT_PORT),
            },
        };
        let token = match flags.token {
            Some(t) => Some(t),
            None => env_token,
        };
        match token {
            Some(t) => if t.len() > 0 {
                Ok(TransportText::Http(bind, t))
            } else {
                Err(NO_TOKEN@)
            },
            None => Err(NO_TOKEN@),
        }
    }
}

/// The transport that a command line and the environment's token ask for.
pub open spec fn resolution(
    args: Seq<Seq<char>>,
    parsed: Seq<Option<Addr>>,
    env_token: Option<Seq<char>>,
) -> Result<TransportText, Seq<char>> {
    match read_flags(args, parsed, 0, no_flags()) {
        Err(e) => Err(e),
        Ok(flags) => settled(flags, env_token),
    }
}

struct Flags {
    http: bool,
    addr: Option<Addr>,
    bind: Option<Addr>,
    token: Option<String>,
}

impl Flags {
    spec fn text(self) -> FlagsText {
        FlagsText {
            http: self.http,
            addr: self.addr,
            bind: self.bind,
            token: text::opt_text(self.token),
        }
    }
}

fn parse_flags(args: &[String], parsed: &[Option<Addr>]) -> (r: Result<Flags, String>)
    requires
        parsed@.len() == args@.len(),
    ensures
        match r {
            Ok(f) => read_flags(text::texts(args@), parsed@, 0, no_flags()) == Ok::<
                FlagsText,
                Seq<char>,
            >(f.text()),
            Err(e) => read_flags(text::texts(args@), parsed@, 0, no_flags()) == Err::<
                FlagsText,
                Seq<char>,
            >(e@),
        },
{
    let ghost all = text::texts(args@);
    let mut flags = Flags { http: false, addr: None, bind: None, token: None };
    let mut i: usize = 0;
    while i < args.len()
        invariant
            all == text::texts(args@),
            parsed@.len() == args@.len(),
            read_flags(all, parsed@, i as int, flags.text()) == read_flags(
                all,
                parsed@,
                0,
                no_flags(),
            ),
        decreases args@.len() - i,
    {
        let arg = args[i].as_str();
        assert(all[i as int] == arg@);
        if text::same(arg, "--http") {
            flags.http = true;
            if i + 1 < args.len() && !text::starts_with(args[i + 1].as_str(), "--") {
                match parse_addr(args[i + 1].as_str(), parsed[i + 1]) {
                    Ok(a) => {
                        flags.addr = Some(a);
                    },
                    Err(e) => {
                        return Err(e);
                    },
                }
                i = i + 1;
            }
        } else if text::same(arg, "--bind") {
            if args.len() - i < 2 {
                return Err("--bind requires an address".to_string());
            }
            match parse_addr(args[i + 1].as_str(), parsed[i + 1]) {
                Ok(a) => {
                    flags.bind = Some(a);
                },
                Err(e) => {
                    return Err(e);
                },
            }
            i = i + 1;
        } else if text::same(arg, "--token") {
            if args.len() - i < 2 {
                return Err("--token requires a value".to_string());
            }
            flags.token = Some(args[i + 1].clone());
            i = i + 1;
        } else {
            let mut e = "unknown argument: ".to_string();
            e.append(arg);
            e.append("\nusage: godot-mcp [--http [addr]] [--bind addr] [--token tok]");
            return Err(e);
        }
        i = i + 1;
    }
    Ok(flags)
}

/// The transport is what `args` and the environment's token ask for.
pub open spec fn is_resolved(
    r: Result<Transport, String>,
    args: Seq<Seq<char>>,
    parsed: Seq<Option<Addr>>,
    env_token: Option<Seq<char>>,
) -> bool {
    match r {
        Ok(t) => resolution(args, parsed, env_token) == Ok::<TransportText, Seq<char>>(t@),
        Err(e) => resolution(args, parsed, env_token) == Err::<TransportText, Seq<char>>(e@),
    }
}

/// Settle the transport that the flags ask for.
fn settle(flags: Flags, env_token: Option<String>) -> (r: Result<Transport, String>)
    ensures
        match r {
            Ok(t) => settled(flags.text(), text::opt_text(env_token)) == Ok::<
                TransportText,
                Seq<char>,
            >(t@),
            Err(e) => settled(flags.text(), text::opt_text(env_token)) == Err::<
                TransportText,
                Seq<char>,
            >(e@),
        },
{
    if !flags.http {
        if flags.bind.is_some() {
            return Err("--bind requires --http".to_string());
        }
        if flags.token.is_some() {
            return Err("--token requires --http".to_string());
        }
        return Ok(Transport::Stdio);
    }
    let bind = match flags.bind {
        Some(a) => a,
        None => match flags.addr {
            Some(a) => a,
            None => Addr { ip: Ip::V4(127, 0, 0, 1), port: DEFAULT_PORT, flow: 0, scope: 0 },
        },
    };
    let token = match flags.token {
        Some(t) => Some(t),
        None => env_token,
    };
    match token {
        Some(t) => if t.as_str().is_empty() {
            Err(NO_TOKEN.to_string())
        } else {
            Ok(Transport::Http(HttpOptions { bind, token: t }))
        },
        None => Err(NO_TOKEN.to_string()),
    }
}

/// Decide the transport from the command line (without the program name), what the socket-address
/// notation makes of each argument, and the token of the environment.
///
/// Errors are startup-fatal by design: an unknown flag, a malformed address, `--bind`/`--token`
/// without HTTP enabled, and HTTP enabled with no token.
pub fn decide_transport(args: &[String], parsed: &[Option<Addr>], env_token: Option<String>) -> (r:
    Result<Transport, String>)
    requires
        parsed@.len() == args@.len(),
    ensures
        is_resolved(r, text::texts(args@), parsed@, text::opt_text(env_token)),
{
    match parse_flags(args, parsed) {
        Ok(flags) => settle(flags, env_token),
        Err(e) => Err(e),
    }
}

/// The command line leaves the token to the environment: HTTP is on, and no flag gives one.
pub open spec fn leaves_the_token(args: Seq<Seq<char>>, parsed: Seq<Option<Addr>>) -> bool {
    match read_flags(args, parsed, 0, no_flags()) {
        Ok(flags) => flags.http && flags.token is None,
        Err(_) => false,
    }
}

/// Resolve the transport from the command line and an environment lookup. The lookup is injected so
/// that nothing here touches process-global state; only `GDKIT_HTTP_TOKEN` is asked for, and only
/// where the command line leaves the token to it.
pub fn resolve_transport<F>(args: &[String], parsed: &[Option<Addr>], env: F) -> (r: Result<
    Transport,
    String,
>) where F: Fn(&str) -> Option<String>
    requires
        parsed@.len() == args@.len(),
        forall|key: &str| call_requires(env, (key,)),
    ensures
        if leaves_the_token(text::texts(args@), parsed@) {
            exists|t: Option<String>| #[trigger]
                call_ensures(env, ("GDKIT_HTTP_TOKEN",), t) && is_resolved(
                    r,
                    text::texts(args@),
                    parsed@,
                    text::opt_text(t),
                )
        } else {
            forall|t: Option<Seq<char>>| #[trigger]
                is_resolved(r, text::texts(args@), parsed@, t)
        },
{
    let flags = match parse_flags(args, parsed) {
        Ok(flags) => flags,
        Err(e) => {
            return Err(e);
        },
    };
    if flags.http && flags.token.is_none() {
        let token = env("GDKIT_HTTP_TOKEN");
        settle(flags, token)
    } else {
        settle(flags, None)
    }
}

/// Whether HTTP is switched on anywhere on the command line.
pub open spec fn asks_for_http(args: Seq<Seq<char>>) -> bool {
    text::lists(args, "--http"@)
}

proof fn lemma_http_needs_its_flag(
    args: Seq<Seq<char>>,
    parsed: Seq<Option<Addr>>,
    i: int,
    flags: FlagsText,
)
    requires
        0 <= i,
        !asks_for_http(args),
    ensures
        read_flags(args, parsed, i, flags) is Ok ==> read_flags(args, parsed, i, flags)->Ok_0.http
            == flags.http,
    decreases args.len() - i,
{
    if i < args.len() {
        if args[i] == "--bind"@ {
            if i + 1 < args.len() && addr_of(args[i + 1], parsed[i + 1]) is Ok {
                lemma_http_needs_its_flag(
                    args,
                    parsed,
                    i + 2,
                    FlagsText { bind: Some(addr_of(args[i + 1], parsed[i + 1])->Ok_0), ..flags },
                );
            }
        } else if args[i] == "--token"@ {
            if i + 1 < args.len() {
                lemma_http_needs_its_flag(
                    args,
                    parsed,
                    i + 2,
                    FlagsText { token: Some(args[i + 1]), ..flags },
                );
            }
        }
    }
}

/// The explicit flag is the only switch: without `--http` on the command line, no environment turns
/// HTTP on, and the environment makes no difference at all.
pub proof fn law_the_environment_never_enables_http(
    args: Seq<Seq<char>>,
    parsed: Seq<Option<Addr>>,
    env_token: Option<Seq<char>>,
)
    requires
        !asks_for_http(args),
    ensures
        !(resolution(args, parsed, env_token) matches Ok(TransportText::Http(_, _))),
        resolution(args, parsed, env_token) == resolution(args, parsed, None),
{
    lemma_http_needs_its_flag(args, parsed, 0, no_flags());
}

/// HTTP is never served without a token.
pub proof fn law_http_always_has_a_token(
    args: Seq<Seq<char>>,
    parsed: Seq<Option<Addr>>,
    env_token: Option<Seq<char>>,
)
    ensures
        resolution(args, parsed, env_token) matches Ok(TransportText::Http(_, token))
            ==> token.len() > 0,
{
}

/// `--bind` overrides the address given to `--http`, which overrides the default, and `--token`
/// overrides the environment: an empty token is refused wherever it comes from.
pub proof fn law_flags_outrank_defaults(flags: FlagsText, env_token: Option<Seq<char>>)
    requires
        flags.http,
    ensures
        settled(flags, env_token) matches Ok(TransportText::Http(bind, token)) ==> {
            &&& flags.bind is Some ==> bind == flags.bind->Some_0
            &&& flags.bind is None && flags.addr is Some ==> bind == flags.addr->Some_0
            &&& flags.bind is None && flags.addr is None ==> bind == Addr::local(DEFAULT_PORT)
            &&& flags.token is Some ==> token == flags.token->Some_0
            &&& flags.token is None ==> env_token == Some(token)
        },
        settled(flags, env_token) is Ok <==> match flags.token {
            Some(t) => t.len() > 0,
            None => env_token is Some && env_token->Some_0.len() > 0,
        },
{
}

/// A command line that turns HTTP on without saying where listens on loopback.
pub proof fn law_http_alone_listens_on_loopback(token: Seq<char>)
    requires
        token.len() > 0,
    ensures
        resolution(seq!["--http"@], seq![None], Some(token)) == Ok::<TransportText, Seq<char>>(
            TransportText::Http(Addr::local(DEFAULT_PORT), token),
        ),
        Addr::local(DEFAULT_PORT).is_local(),
        resolution(seq!["--http"@], seq![None], None) == Err::<TransportText, Seq<char>>(NO_TOKEN@),
{
    reveal_with_fuel(read_flags, 2);
}

// ---- the bearer gate ----------------------------------------------------------------------------

/// The byte at `i`, zero past the end.
spec fn byte_at(s: Seq<u8>, i: int) -> u8 {
    if i < s.len() {
        s[i]
    } else {
        0
    }
}

proof fn lemma_xor_is_zero(x: u8, y: u8)
    ensures
        ((x ^ y) as usize == 0) <==> x == y,
{
    assert((x ^ y) == 0 <==> x == y) by (bit_vector);
}

proof fn lemma_or_is_zero(x: usize, y: usize)
    ensures
        (x | y) == 0 <==> x == 0 && y == 0,
{
    assert((x | y) == 0 <==> x == 0 && y == 0) by (bit_vector);
}

/// Constant-time byte equality: which bytes are looked at does not depend on where a mismatch sits.
pub fn ct_eq(a: &[u8], b: &[u8]) -> (r: bool)
    ensures
        r == (a@ == b@),
{
    let n: usize = a.len();
    let m: usize = b.len();
    let mut diff: usize = n ^ m;
    assert((n ^ m) == 0 <==> n == m) by (bit_vector);
    let end: usize = if n < m {
        m
    } else {
        n
    };
    for i in 0..end
        invariant
            n == a@.len(),
            m == b@.len(),
            end == if n < m {
                m
            } else {
                n
            },
            diff == 0 <==> n == m && forall|k: int|
                0 <= k < i ==> #[trigger] byte_at(a@, k) == byte_at(b@, k),
    {
        let x: u8 = if i < a.len() {
            a[i]
        } else {
            0
        };
        let y: u8 = if i < b.len() {
            b[i]
        } else {
            0
        };
        assert(x == byte_at(a@, i as int) && y == byte_at(b@, i as int));
        proof {
            lemma_xor_is_zero(x, y);
            lemma_or_is_zero(diff, (x ^ y) as usize);
        }
        diff = diff | ((x ^ y) as usize);
    }
    proof {
        if diff == 0 {
            assert forall|k: int| 0 <= k < a@.len() implies a@[k] == b@[k] by {
                assert(byte_at(a@, k) == byte_at(b@, k));
            }
            assert(a@ =~= b@);
        }
    }
    diff == 0
}

/// A byte that a header can be read as text with: visible ASCII, a space or a tab.
pub open spec fn is_header_text(b: u8) -> bool {
    (32 <= b && b < 127) || b == 9
}

/// `Bearer ` in bytes.
pub open spec fn bearer() -> Seq<u8> {
    seq![66u8, 101, 97, 114, 101, 114, 32]
}

/// Whether an `Authorization` header presents the token.
pub open spec fn presents(header: Option<Seq<u8>>, token: Seq<char>) -> bool {
    match header {
        Some(h) => {
            &&& forall|i: int| 0 <= i < h.len() ==> is_header_text(#[trigger] h[i])
            &&& h == bearer() + vstd::utf8::encode_utf8(token)
        },
        None => false,
    }
}

/// The bearer gate: whether a request may pass, by the bytes of its `Authorization` header. Exactly
/// `Bearer`, one space and the token opens it.
pub fn require_bearer(expected: &str, header: Option<&[u8]>) -> (r: bool)
    ensures
        r == presents(
            match header {
                Some(h) => Some(h@),
                None => None,
            },
            expected@,
        ),
{
    let h = match header {
        Some(h) => h,
        None => {
            return false;
        },
    };
    for i in 0..h.len()
        invariant
            forall|k: int| 0 <= k < i ==> is_header_text(#[trigger] h@[k]),
            header is Some && header->Some_0@ == h@,
    {
        let b = h[i];
        if !((32 <= b && b < 127) || b == 9) {
            assert(!is_header_text(h@[i as int]));
            return false;
        }
    }
    let scheme: Vec<u8> = vec![66, 101, 97, 114, 101, 114, 32];
    assert(scheme@ =~= bearer());
    if h.len() < 7 {
        return false;
    }
    let front = vstd::slice::slice_subrange(h, 0, 7);
    let rest = vstd::slice::slice_subrange(h, 7, h.len());
    assert(h@ =~= front@ + rest@);
    let ghost whole = bearer() + vstd::utf8::encode_utf8(expected@);
    assert(whole.subrange(0, 7) =~= bearer());
    assert(whole.skip(7) =~= vstd::utf8::encode_utf8(expected@));
    assert(rest@ =~= h@.skip(7));
    ct_eq(front, &scheme) && ct_eq(rest, expected.as_bytes())
}

/// A request without a matching token never passes: no header, another scheme, and any other token
/// are all refused.
pub proof fn law_only_the_exact_token_passes(
    header: Option<Seq<u8>>,
    token: Seq<char>,
    other: Seq<char>,
)
    ensures
        !presents(None, token),
        presents(header, token) ==> header == Some(bearer() + vstd::utf8::encode_utf8(token)),
        presents(header, token) && presents(header, other) ==> token == other,
{
    if presents(header, token) && presents(header, other) {
        let h = header->Some_0;
        assert(h.skip(7) =~= vstd::utf8::encode_utf8(token));
        assert(h.skip(7) =~= vstd::utf8::encode_utf8(other));
        vstd::utf8::encode_utf8_decode_utf8(token);
        vstd::utf8::encode_utf8_decode_utf8(other);
    }
}

// ---- what a command line asks for ---------------------------------------------------------------

/// Text that stands for itself in a command line: no flag.
pub open spec fn is_plain_argument(s: Seq<char>) -> bool {
    !text::begins(s, "--"@)
}

/// Each flag, read on its own, sets what it is about and nothing else.
pub proof fn law_what_a_flag_sets(
    flags: FlagsText,
    v: Seq<char>,
    a: Addr,
    x: Option<Addr>,
    y: Option<Addr>,
)
    ensures
        read_flags(seq!["--http"@], seq![x], 0, flags) == Ok::<FlagsText, Seq<char>>(
            FlagsText { http: true, ..flags },
        ),
        is_plain_argument(v) ==> read_flags(seq!["--http"@, v], seq![x, Some(a)], 0, flags) == Ok::<
            FlagsText,
            Seq<char>,
        >(FlagsText { http: true, addr: Some(a), ..flags }),
        read_flags(seq!["--bind"@, v], seq![x, Some(a)], 0, flags) == Ok::<FlagsText, Seq<char>>(
            FlagsText { bind: Some(a), ..flags },
        ),
        read_flags(seq!["--token"@, v], seq![x, y], 0, flags) == Ok::<FlagsText, Seq<char>>(
            FlagsText { token: Some(v), ..flags },
        ),
{
    reveal_with_fuel(read_flags, 3);
    lemma_the_flags_differ();
    assert(seq![x, Some(a)][1] == Some(a));
}

proof fn lemma_the_flags_differ()
    ensures
        "--http"@ != "--bind"@,
        "--http"@ != "--token"@,
        "--bind"@ != "--token"@,
{
    reveal_strlit("--http");
    reveal_strlit("--bind");
    reveal_strlit("--token");
    assert("--http"@[2] == 'h' && "--bind"@[2] == 'b' && "--token"@[2] == 't');
}

/// What is not known, and a flag without what it needs, is refused, whatever was said before.
pub proof fn law_what_a_command_line_is_refused_for(
    flags: FlagsText,
    v: Seq<char>,
    x: Option<Addr>,
)
    ensures
        v != "--http"@ && v != "--bind"@ && v != "--token"@ ==> read_flags(seq![v], seq![x], 0, flags)
            == Err::<FlagsText, Seq<char>>(
            "unknown argument: "@ + v
                + "\nusage: godot-mcp [--http [addr]] [--bind addr] [--token tok]"@,
        ),
        read_flags(seq!["--bind"@], seq![x], 0, flags) == Err::<FlagsText, Seq<char>>(
            "--bind requires an address"@,
        ),
        read_flags(seq!["--token"@], seq![x], 0, flags) == Err::<FlagsText, Seq<char>>(
            "--token requires a value"@,
        ),
        !is_port(v) ==> read_flags(seq!["--bind"@, v], seq![x, None], 0, flags) is Err,
        !is_port(v) && is_plain_argument(v) ==> read_flags(seq!["--http"@, v], seq![x, None], 0, flags) is Err,
{
    reveal_with_fuel(read_flags, 2);
    lemma_the_flags_differ();
    assert(seq![x, None::<Addr>][1] == None::<Addr>);
}

proof fn lemma_read_behind(
    p: Seq<Seq<char>>,
    pp: Seq<Option<Addr>>,
    q: Seq<Seq<char>>,
    pq: Seq<Option<Addr>>,
    i: int,
    flags: FlagsText,
)
    requires
        pp.len() == p.len(),
        pq.len() == q.len(),
        0 <= i,
    ensures
        read_flags(p + q, pp + pq, p.len() + i, flags) == read_flags(q, pq, i, flags),
    decreases q.len() - i,
{
    if i < q.len() {
        let n = p.len() + i;
        assert((p + q)[n] == q[i]);
        if i + 1 < q.len() {
            assert((p + q)[n + 1] == q[i + 1]);
            assert((pp + pq)[n + 1] == pq[i + 1]);
            if addr_of(q[i + 1], pq[i + 1]) is Ok {
                let a = addr_of(q[i + 1], pq[i + 1])->Ok_0;
                lemma_read_behind(
                    p,
                    pp,
                    q,
                    pq,
                    i + 2,
                    FlagsText { http: true, addr: Some(a), ..flags },
                );
                lemma_read_behind(p, pp, q, pq, i + 2, FlagsText { bind: Some(a), ..flags });
            }
            lemma_read_behind(p, pp, q, pq, i + 2, FlagsText { token: Some(q[i + 1]), ..flags });
        }
        lemma_read_behind(p, pp, q, pq, i + 1, FlagsText { http: true, ..flags });
    }
}

proof fn lemma_read_in_turn(
    p: Seq<Seq<char>>,
    pp: Seq<Option<Addr>>,
    q: Seq<Seq<char>>,
    pq: Seq<Option<Addr>>,
    i: int,
    flags: FlagsText,
)
    requires
        pp.len() == p.len(),
        pq.len() == q.len(),
        q.len() == 0 || text::begins(q[0], "--"@),
        0 <= i <= p.len(),
    ensures
        match read_flags(p, pp, i, flags) {
            Ok(next) => read_flags(p + q, pp + pq, i, flags) == read_flags(q, pq, 0, next),
            Err(_) => true,
        },
    decreases p.len() - i,
{
    if i < p.len() {
        assert((p + q)[i] == p[i]);
        if i + 1 < p.len() {
            assert((p + q)[i + 1] == p[i + 1]);
            assert((pp + pq)[i + 1] == pp[i + 1]);
            if addr_of(p[i + 1], pp[i + 1]) is Ok {
                let a = addr_of(p[i + 1], pp[i + 1])->Ok_0;
                lemma_read_in_turn(
                    p,
                    pp,
                    q,
                    pq,
                    i + 2,
                    FlagsText { http: true, addr: Some(a), ..flags },
                );
                lemma_read_in_turn(p, pp, q, pq, i + 2, FlagsText { bind: Some(a), ..flags });
            }
            lemma_read_in_turn(p, pp, q, pq, i + 2, FlagsText { token: Some(p[i + 1]), ..flags });
        } else if q.len() > 0 {
            assert((p + q)[i + 1] == q[0]);
        }
        lemma_read_in_turn(p, pp, q, pq, i + 1, FlagsText { http: true, ..flags });
    } else {
        lemma_read_behind(p, pp, q, pq, 0, flags);
    }
}

/// A command line is read flag by flag: one that is followed by another is read first, and the other
/// is read on top of it.
pub proof fn law_a_command_line_is_read_in_turn(
    p: Seq<Seq<char>>,
    pp: Seq<Option<Addr>>,
    q: Seq<Seq<char>>,
    pq: Seq<Option<Addr>>,
    flags: FlagsText,
)
    requires
        pp.len() == p.len(),
        pq.len() == q.len(),
        q.len() == 0 || text::begins(q[0], "--"@),
        read_flags(p, pp, 0, flags) is Ok,
    ensures
        read_flags(p + q, pp + pq, 0, flags) == read_flags(
            q,
            pq,
            0,
            read_flags(p, pp, 0, flags)->Ok_0,
        ),
{
    lemma_read_in_turn(p, pp, q, pq, 0, flags);
}

/// With HTTP on, a bound address and a token given by flags are what is served, whatever the
/// environment says and in whatever order they are given; without a token of its own the command
/// line takes the environment's.
pub proof fn law_what_is_served(
    a: Seq<char>,
    x: Addr,
    b: Seq<char>,
    y: Addr,
    t: Seq<char>,
    env_token: Option<Seq<char>>,
)
    requires
        is_plain_argument(a),
        t.len() > 0,
    ensures
        resolution(
            seq!["--http"@, a, "--bind"@, b, "--token"@, t],
            seq![None, Some(x), None, Some(y), None, None],
            env_token,
        ) == Ok::<TransportText, Seq<char>>(TransportText::Http(y, t)),
        resolution(
            seq!["--token"@, t, "--bind"@, b, "--http"@, a],
            seq![None, None, None, Some(y), None, Some(x)],
            env_token,
        ) == Ok::<TransportText, Seq<char>>(TransportText::Http(y, t)),
        resolution(
            seq!["--http"@, a, "--token"@, t],
            seq![None, Some(x), None, None],
            env_token,
        ) == Ok::<TransportText, Seq<char>>(TransportText::Http(x, t)),
        resolution(seq!["--http"@, a], seq![None, Some(x)], Some(t)) == Ok::<
            TransportText,
            Seq<char>,
        >(TransportText::Http(x, t)),
{
    lemma_the_flags_differ();
    let off = no_flags();
    assert({
        let args = seq!["--http"@, a, "--bind"@, b, "--token"@, t];
        let p = seq![None, Some(x), None, Some(y), None, None];
        let f = FlagsText { http: true, addr: Some(x), ..off };
        let g = FlagsText { bind: Some(y), ..f };
        let h = FlagsText { token: Some(t), ..g };
        &&& read_flags(args, p, 6, h) == Ok::<FlagsText, Seq<char>>(h)
        &&& read_flags(args, p, 4, g) == Ok::<FlagsText, Seq<char>>(h)
        &&& read_flags(args, p, 2, f) == Ok::<FlagsText, Seq<char>>(h)
        &&& read_flags(args, p, 0, off) == Ok::<FlagsText, Seq<char>>(h)
    });
    assert({
        let args = seq!["--token"@, t, "--bind"@, b, "--http"@, a];
        let p = seq![None, None, None, Some(y), None, Some(x)];
        let f = FlagsText { token: Some(t), ..off };
        let g = FlagsText { bind: Some(y), ..f };
        let h = FlagsText { http: true, addr: Some(x), ..g };
        &&& read_flags(args, p, 6, h) == Ok::<FlagsText, Seq<char>>(h)
        &&& read_flags(args, p, 4, g) == Ok::<FlagsText, Seq<char>>(h)
        &&& read_flags(args, p, 2, f) == Ok::<FlagsText, Seq<char>>(h)
        &&& read_flags(args, p, 0, off) == Ok::<FlagsText, Seq<char>>(h)
    });
    assert({
        let args = seq!["--http"@, a, "--token"@, t];
        let p = seq![None, Some(x), None, None];
        let f = FlagsText { http: true, addr: Some(x), ..off };
        let h = FlagsText { token: Some(t), ..f };
        &&& read_flags(args, p, 4, h) == Ok::<FlagsText, Seq<char>>(h)
        &&& read_flags(args, p, 2, f) == Ok::<FlagsText, Seq<char>>(h)
        &&& read_flags(args, p, 0, off) == Ok::<FlagsText, Seq<char>>(h)
    });
    assert({
        let args = seq!["--http"@, a];
        let p = seq![None, Some(x)];
        let h = FlagsText { http: true, addr: Some(x), ..off };
        &&& read_flags(args, p, 2, h) == Ok::<FlagsText, Seq<char>>(h)
        &&& read_flags(args, p, 0, off) == Ok::<FlagsText, Seq<char>>(h)
    });
}

/// HTTP that is not told where to listen listens on port 8642 of 127.0.0.1.
pub proof fn law_where_is_listened_by_default(t: Seq<char>, env_token: Option<Seq<char>>)
    requires
        t.len() > 0,
    ensures
        resolution(seq!["--http"@, "--token"@, t], seq![None, None, None], env_token) == Ok::<
            TransportText,
            Seq<char>,
        >(
            TransportText::Http(
                (Addr { ip: Ip::V4(127, 0, 0, 1), port: 8642, flow: 0, scope: 0 }),
                t,
            ),
        ),
{
    reveal_with_fuel(read_flags, 3);
    lemma_the_flags_differ();
    reveal_strlit("--token");
    reveal_strlit("--");
    assert("--token"@.subrange(0, 2) =~= "--"@);
}

/// Without HTTP there is nothing to bind and no token to check, so either is refused; an empty
/// command line talks over standard input and output.
pub proof fn law_flags_without_http(
    b: Seq<char>,
    y: Addr,
    t: Seq<char>,
    env_token: Option<Seq<char>>,
)
    ensures
        resolution(Seq::empty(), Seq::empty(), env_token) == Ok::<TransportText, Seq<char>>(
            TransportText::Stdio,
        ),
        resolution(seq!["--bind"@, b], seq![None, Some(y)], env_token) == Err::<
            TransportText,
            Seq<char>,
        >("--bind requires --http"@),
        resolution(seq!["--token"@, t], seq![None, None], env_token) == Err::<
            TransportText,
            Seq<char>,
        >("--token requires --http"@),
{
    reveal_with_fuel(read_flags, 2);
    lemma_the_flags_differ();
    assert(seq![None, Some(y)][1] == Some(y));
}

/// An empty token is no token, wherever it comes from: the listener is not opened.
pub proof fn law_an_empty_token_is_refused(t: Seq<char>)
    requires
        t.len() > 0,
    ensures
        resolution(seq!["--http"@, "--token"@, Seq::empty()], seq![None, None, None], Some(t)) == Err::<
            TransportText,
            Seq<char>,
        >(NO_TOKEN@),
        resolution(seq!["--http"@], seq![None], Some(Seq::empty())) == Err::<
            TransportText,
            Seq<char>,
        >(NO_TOKEN@),
{
    reveal_with_fuel(read_flags, 3);
    lemma_the_flags_differ();
    reveal_strlit("--token");
    reveal_strlit("--");
    assert("--token"@.subrange(0, 2) =~= "--"@);
}

/// What is left to the environment: the token of a command line that turns HTTP on and gives none.
pub proof fn law_when_the_environment_is_asked(
    args: Seq<Seq<char>>,
    parsed: Seq<Option<Addr>>,
    s: Seq<char>,
    t: Seq<char>,
)
    requires
        s.len() > 0,
        t.len() > 0,
        s != t,
    ensures
        leaves_the_token(args, parsed) <==> resolution(args, parsed, Some(s)) != resolution(
            args,
            parsed,
            Some(t),
        ),
{
}

// ---- addresses and tokens -----------------------------------------------------------------------

proof fn lemma_decimal_is_a_number(n: nat)
    ensures
        text::decimal(n).len() > 0,
        forall|i: int| 0 <= i < text::decimal(n).len() ==> text::is_digit(#[trigger] text::decimal(n)[i]),
        digits_value(text::decimal(n)) == n,
    decreases n,
{
    reveal_with_fuel(digits_value, 2);
    if n >= 10 {
        lemma_decimal_is_a_number(n / 10);
        let front = text::decimal(n / 10);
        let last = text::digit_char((n % 10) as int);
        assert(front.push(last).drop_last() =~= front);
        assert forall|i: int| 0 <= i < text::decimal(n).len() implies text::is_digit(
            #[trigger] text::decimal(n)[i],
        ) by {
            if i < front.len() {
                assert(text::decimal(n)[i] == front[i]);
            }
        }
    } else {
        assert(text::decimal(n).drop_last() =~= Seq::<char>::empty());
    }
}

/// A bare port stands for that port on 127.0.0.1; a larger number stands for nothing. What reads as
/// a socket address is that address.
pub proof fn law_what_a_bare_port_stands_for(n: nat, s: Seq<char>, a: Addr)
    ensures
        n <= 65535 ==> addr_of(text::decimal(n), None) == Ok::<Addr, Seq<char>>(
            Addr { ip: Ip::V4(127, 0, 0, 1), port: n as u16, flow: 0, scope: 0 },
        ),
        n <= 65535 ==> addr_of(seq!['+'] + text::decimal(n), None) == addr_of(
            text::decimal(n),
            None,
        ),
        n > 65535 ==> addr_of(text::decimal(n), None) is Err,
        addr_of(s, Some(a)) == Ok::<Addr, Seq<char>>(a),
{
    lemma_decimal_is_a_number(n);
    let d = text::decimal(n);
    assert(text::is_digit(d[0]));
    assert((seq!['+'] + d).skip(1) =~= d);
}

/// A text that is no address is refused by its own words.
pub proof fn law_what_is_no_address(s: Seq<char>, i: int)
    requires
        0 <= i < s.len(),
        !text::is_digit(s[i]),
        i > 0 || s[i] != '+',
    ensures
        addr_of(s, None) == Err::<Addr, Seq<char>>(
            "invalid address "@ + text::notation(s) + " — expected ip:port or a bare port"@,
        ),
        addr_of(Seq::empty(), None) is Err,
{
    let d = unsigned_part(s);
    if s[0] == '+' {
        assert(d[i - 1] == s[i]);
    } else {
        assert(d[i] == s[i]);
    }
    assert(unsigned_part(Seq::empty()).len() == 0);
}

/// Only 127.0.0.0/8 and ::1 are this machine alone.
pub proof fn law_what_is_loopback(a: u8, b: u8, c: u8, d: u8, n: u128, port: u16, flow: u32, scope: u32)
    ensures
        (Addr { ip: Ip::V4(a, b, c, d), port, flow, scope }).is_local() <==> a == 127,
        (Addr { ip: Ip::V6(n), port, flow, scope }).is_local() <==> n == 1,
{
}

/// The header that lets a request pass is `Bearer`, one space and the characters of the token; one
/// with another byte in front or behind does not.
pub proof fn law_the_header_that_passes(token: Seq<char>, b: u8)
    requires
        forall|i: int|
            0 <= i < token.len() ==> ' ' <= #[trigger] token[i] <= '~' || token[i] == '\t',
    ensures
        ({
            let text = "Bearer "@ + token;
            let header = Seq::new(text.len(), |i: int| text[i] as u8);
            &&& presents(Some(header), token)
            &&& !presents(Some(header.push(b)), token)
            &&& !presents(Some(seq![b] + header), token)
            &&& !presents(Some(header.skip(7)), token)
        }),
{
    reveal_strlit("Bearer ");
    let text = "Bearer "@ + token;
    let header = Seq::new(text.len(), |i: int| text[i] as u8);
    assert(vstd::utf8::is_ascii_chars(token)) by {
        assert forall|i: int| 0 <= i < token.len() implies '\0' <= #[trigger] token[i] <= '\u{7f}' by {
            assert(' ' <= token[i] <= '~' || token[i] == '\t');
        }
    }
    vstd::utf8::is_ascii_chars_encode_utf8(token);
    let want = bearer() + vstd::utf8::encode_utf8(token);
    assert(header.len() == want.len());
    assert forall|i: int| 0 <= i < header.len() implies header[i] == want[i] by {
        if i >= 7 {
            assert(text[i] == token[i - 7]);
            assert(want[i] == vstd::utf8::encode_utf8(token)[i - 7]);
        } else {
            assert(text[i] == "Bearer "@[i]);
        }
    }
    assert(header =~= want);
    assert forall|i: int| 0 <= i < header.len() implies is_header_text(#[trigger] header[i]) by {
        if i >= 7 {
            assert(text[i] == token[i - 7]);
            assert(' ' <= token[i - 7] <= '~' || token[i - 7] == '\t');
        }
    }
    assert(header.push(b).len() == want.len() + 1);
    assert((seq![b] + header).len() == want.len() + 1);
    assert(header.skip(7).len() == want.len() - 7);
}

/// What comes of a command line is settled: two resolutions of the same one agree.
pub proof fn law_a_command_line_has_one_outcome(
    r: Result<Transport, String>,
    s: Result<Transport, String>,
    args: Seq<Seq<char>>,
    parsed: Seq<Option<Addr>>,
    env_token: Option<Seq<char>>,
)
    requires
        is_resolved(r, args, parsed, env_token),
        is_resolved(s, args, parsed, env_token),
    ensures
        r is Ok <==> s is Ok,
        r is Ok ==> r->Ok_0@ == s->Ok_0@ && resolution(args, parsed, env_token) == Ok::<
            TransportText,
            Seq<char>,
        >(r->Ok_0@),
        r is Err ==> r->Err_0@ == s->Err_0@ && resolution(args, parsed, env_token) == Err::<
            TransportText,
            Seq<char>,
        >(r->Err_0@),
{
}

/// A header that holds anything but visible characters, spaces and tabs never passes.
pub proof fn law_an_unreadable_header_is_refused(header: Seq<u8>, token: Seq<char>, i: int)
    requires
        0 <= i < header.len(),
        header[i] != 9,
        header[i] < 32 || header[i] >= 127,
    ensures
        !presents(Some(header), token),
{
    assert(!is_header_text(header[i]));
}

} // verus!
