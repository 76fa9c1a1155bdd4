//! The configuration side of the user-facing instance: choosing the provider
//! URL, reading the UDP multicast settings out of it, and numbering
//! subscriptions.
use url::Url;
use vstd::prelude::*;

use crate::error::InitError;

verus! {

/// The URL used when none is configured.
pub const LCM_DEFAULT_URL: &'static str = "udpm://239.255.76.67:7667?ttl=0";

/// The multicast group used when the URL names none.
pub const DEFAULT_ADDRESS: &'static str = "239.255.76.67";

/// The port used when the URL names none.
pub const DEFAULT_PORT: u16 = 7667;

/// A subscription, used to unsubscribe.
#[derive(Debug, Clone, Copy, PartialEq, Eq, Structural)]
pub struct Subscription(pub u32);

/// Chooses the provider URL: the configured one (the `LCM_DEFAULT_URL`
/// environment variable) unless it is absent or empty, else the default.
pub fn choose_url(configured: Option<String>) -> (r: String)
    ensures
        match configured {
            Some(s) => s@.len() > 0 ==> r@ == s@,
            None => true,
        },
        (configured is None || configured->Some_0@.len() == 0) ==> r@ == LCM_DEFAULT_URL@,
{
    match configured {
        Some(s) => {
            if s.as_str().is_empty() {
                LCM_DEFAULT_URL.to_owned()
            } else {
                s
            }
        },
        None => LCM_DEFAULT_URL.to_owned(),
    }
}

/// The parts of a URL that the provider reads: scheme, host, port and query
/// pairs, in their order in the URL.
pub struct UrlParts {
    pub scheme: String,
    pub host: Option<String>,
    pub port: Option<u16>,
    pub query: Vec<(String, String)>,
}

/// The parts of the URL `s` as the `url` crate parses it, or `None` when it
/// does not parse.
pub uninterp spec fn url_parts_of(s: Seq<char>) -> Option<
    (Seq<char>, Option<Seq<char>>, Option<u16>, Seq<(Seq<char>, Seq<char>)>),
>;

/// The view of parsed URL parts.
pub open spec fn parts_view(p: UrlParts) -> (Seq<char>, Option<Seq<char>>, Option<u16>, Seq<
    (Seq<char>, Seq<char>),
>) {
    (
        p.scheme@,
        match p.host {
            Some(h) => Some(h@),
            None => None,
        },
        p.port,
        p.query@.map_values(|kv: (String, String)| (kv.0@, kv.1@)),
    )
}

/// Relies on `url::Url::parse`, then reads the result's scheme, host, port and
/// decoded query pairs; all of it depends on the text alone.
#[verifier::external_body]
fn split_url(s: &str) -> (r: Option<UrlParts>)
    ensures
        match r {
            Some(p) => url_parts_of(s@) == Some(parts_view(p)),
            None => url_parts_of(s@) is None,
        },
{
    let u = Url::parse(s).ok()?;
    Some(UrlParts {
        scheme: u.scheme().to_string(),
        host: u.host_str().map(|h| h.to_string()),
        port: u.port(),
        query: u.query_pairs().map(|(k, v)| (k.into_owned(), v.into_owned())).collect(),
    })
}

/// The value of the base-10 digits `s`.
pub open spec fn digits_value(s: Seq<char>) -> nat
    decreases s.len(),
{
    if s.len() == 0 {
        0
    } else {
        (digits_value(s.drop_last()) * 10 + (s.last() as int - '0' as int)) as nat
    }
}

/// Whether every character of `s` is a base-10 digit.
pub open spec fn all_digits(s: Seq<char>) -> bool {
    forall|i: int| 0 <= i < s.len() ==> '0' <= #[trigger] s[i] <= '9'
}

/// The unsigned 32-bit integer that `s` writes in base 10 (an optional `+`,
/// then at least one digit), if it fits.
pub open spec fn u32_of_text(s: Seq<char>) -> Option<u32> {
    let d = if s.len() > 0 && s[0] == '+' {
        s.drop_first()
    } else {
        s
    };
    if d.len() > 0 && all_digits(d) && digits_value(d) <= u32::MAX {
        Some(digits_value(d) as u32)
    } else {
        None
    }
}

/// Parses an unsigned 32-bit integer written in base 10.
pub fn parse_u32(s: &str) -> (r: Option<u32>)
    ensures
        r == u32_of_text(s@),
{
    let n = s.unicode_len();
    let mut k: usize = 0;
    if n > 0 && s.get_char(0) == '+' {
        k = 1;
    }
    let ghost d = if s@.len() > 0 && s@[0] == '+' {
        s@.drop_first()
    } else {
        s@
    };
    assert(d =~= s@.subrange(k as int, n as int));
    if k == n {
        return None;
    }
    let start = k;
    let mut v: u64 = 0;
    while k < n
        invariant
            n == s@.len(),
            start <= k <= n,
            d == s@.subrange(start as int, n as int),
            d == (if s@.len() > 0 && s@[0] == '+' {
                s@.drop_first()
            } else {
                s@
            }),
            all_digits(s@.subrange(start as int, k as int)),
            v as nat == digits_value(s@.subrange(start as int, k as int)),
            v <= u32::MAX,
        decreases n - k,
    {
        let c = s.get_char(k);
        assert(s@.subrange(start as int, k + 1).drop_last() =~= s@.subrange(start as int, k as int));
        if c < '0' || c > '9' {
            assert(d[k - start] == c);
            assert(!all_digits(d));
            return None;
        }
        let digit = (c as u32 - '0' as u32) as u64;
        v = v * 10 + digit;
        assert(v as nat == digits_value(s@.subrange(start as int, k + 1)));
        if v > u32::MAX as u64 {
            proof {
                if all_digits(d) {
                    assert(d.subrange(0, k + 1 - start) =~= s@.subrange(start as int, k + 1));
                    lemma_digits_monotone(d, (k + 1 - start) as int);
                }
            }
            return None;
        }
        k = k + 1;
    }
    assert(s@.subrange(start as int, n as int) == d);
    Some(v as u32)
}

proof fn lemma_digits_monotone(s: Seq<char>, i: int)
    requires
        0 <= i <= s.len(),
        all_digits(s),
    ensures
        digits_value(s.subrange(0, i)) <= digits_value(s),
    decreases s.len() - i,
{
    if i < s.len() {
        lemma_digits_monotone(s, i + 1);
        assert(s.subrange(0, i + 1).drop_last() =~= s.subrange(0, i));
    } else {
        assert(s.subrange(0, i) =~= s);
    }
}

/// The settings of the UDP multicast provider.
#[derive(Debug, Clone, PartialEq, Eq)]
pub struct UdpmConfig {
    /// The multicast group (a host name or address).
    pub host: String,
    pub port: u16,
    /// The multicast time to live of sent packets.
    pub ttl: u32,
}

impl Default for UdpmConfig {
    /// The LCM defaults: group 239.255.76.67, port 7667, time to live 0.
    fn default() -> (r: UdpmConfig)
        ensures
            r.host@ == DEFAULT_ADDRESS@,
            r.port == DEFAULT_PORT,
            r.ttl == 0,
    {
        UdpmConfig { host: DEFAULT_ADDRESS.to_owned(), port: DEFAULT_PORT, ttl: 0 }
    }
}

/// The value of the last `ttl` pair of `query`, or `default`.
pub open spec fn last_ttl(query: Seq<(Seq<char>, Seq<char>)>, default: Option<Seq<char>>) -> Option<
    Seq<char>,
>
    decreases query.len(),
{
    if query.len() == 0 {
        default
    } else if query.last().0 == "ttl"@ {
        Some(query.last().1)
    } else {
        last_ttl(query.drop_last(), default)
    }
}

/// The provider settings that the URL `s` asks for, or the error.
pub open spec fn config_of(s: Seq<char>) -> Result<(Seq<char>, u16, u32), InitError> {
    match url_parts_of(s) {
        None => Err(InitError::InvalidLcmUrl),
        Some((scheme, host, port, query)) => if scheme != "udpm"@ {
            Err(InitError::UnknownProvider(arbitrary()))
        } else {
            let ttl = match last_ttl(query, None) {
                None => Some(0u32),
                Some(t) => u32_of_text(t),
            };
            match ttl {
                None => Err(InitError::InvalidTtl),
                Some(t) => Ok(
                    (
                        match host {
                            Some(h) => h,
                            None => DEFAULT_ADDRESS@,
                        },
                        match port {
                            Some(p) => p,
                            None => DEFAULT_PORT,
                        },
                        t,
                    ),
                ),
            }
        },
    }
}

/// Reads the UDP multicast settings from a provider URL of the form
/// `udpm://host:port?ttl=N`; a missing host, port or ttl takes its default.
pub fn udpm_config(lcm_url: &str) -> (r: Result<UdpmConfig, InitError>)
    ensures
        match config_of(lcm_url@) {
            Ok((h, p, t)) => r is Ok && r->Ok_0.host@ == h && r->Ok_0.port == p && r->Ok_0.ttl == t,
            Err(InitError::UnknownProvider(_)) => r is Err && r->Err_0 is UnknownProvider
                && r->Err_0->UnknownProvider_0@ == url_parts_of(lcm_url@)->Some_0.0,
            Err(e) => r == Err::<UdpmConfig, InitError>(e),
        },
{
    let parts = match split_url(lcm_url) {
        Some(p) => p,
        None => {
            return Err(InitError::InvalidLcmUrl);
        },
    };
    let udpm = "udpm".to_owned();
    if parts.scheme != udpm {
        return Err(InitError::UnknownProvider(parts.scheme));
    }
    let ghost q = parts.query@.map_values(|kv: (String, String)| (kv.0@, kv.1@));
    let ttl_key = "ttl".to_owned();
    let mut ttl_text: Option<&str> = None;
    let mut i: usize = 0;
    while i < parts.query.len()
        invariant
            i <= parts.query@.len(),
            q == parts.query@.map_values(|kv: (String, String)| (kv.0@, kv.1@)),
            ttl_key@ == "ttl"@,
            last_ttl(q.subrange(0, i as int), None) == match ttl_text {
                Some(t) => Some(t@),
                None => None::<Seq<char>>,
            },
        decreases parts.query@.len() - i,
    {
        assert(q.subrange(0, i + 1).drop_last() =~= q.subrange(0, i as int));
        if parts.query[i].0 == ttl_key {
            ttl_text = Some(parts.query[i].1.as_str());
        }
        i = i + 1;
    }
    assert(q.subrange(0, i as int) =~= q);
    let ttl = match ttl_text {
        None => 0,
        Some(t) => match parse_u32(t) {
            Some(v) => v,
            None => {
                return Err(InitError::InvalidTtl);
            },
        },
    };
    let host = match parts.host {
        Some(h) => h,
        None => DEFAULT_ADDRESS.to_owned(),
    };
    let port = match parts.port {
        Some(p) => p,
        None => DEFAULT_PORT,
    };
    Ok(UdpmConfig { host, port, ttl })
}

} // verus!
