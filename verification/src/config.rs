//! Runtime configuration of the broker, read from environment variables.
use vstd::prelude::*;
use crate::query::eval::lookup;
use crate::text::{chars_of, chars_eq_ignore_ascii_case, eq_ignore_ascii_case, string_from, string_of, join_chars};

verus! {

/// Broker configuration.
#[derive(Clone, Debug)]
pub struct AppConfig {
    pub host: String,
    pub port: u16,
    pub broker_id: String,
    pub public_endpoint: String,
    pub defradb_url: String,
    pub outbound_timeout_ms: u64,
    pub entity_watch_enabled: bool,
    pub entity_watch_interval_ms: u64,
}

/// Decimal digits of a natural number.
pub open spec fn decimal_text(n: nat) -> Seq<char>
    decreases n,
{
    if n < 10 {
        seq![digit_char(n)]
    } else {
        decimal_text(n / 10).push(digit_char(n % 10))
    }
}

/// The ASCII digit of a value below ten.
pub open spec fn digit_char(d: nat) -> char {
    if d == 0 {
        '0'
    } else if d == 1 {
        '1'
    } else if d == 2 {
        '2'
    } else if d == 3 {
        '3'
    } else if d == 4 {
        '4'
    } else if d == 5 {
        '5'
    } else if d == 6 {
        '6'
    } else if d == 7 {
        '7'
    } else if d == 8 {
        '8'
    } else {
        '9'
    }
}

/// Value of an ASCII digit.
pub open spec fn digit_value(c: char) -> int {
    (c as u32) - ('0' as u32)
}

/// Value of a sequence of ASCII digits.
pub open spec fn digits_value(s: Seq<char>) -> int
    decreases s.len(),
{
    if s.len() == 0 {
        0
    } else {
        digits_value(s.drop_last()) * 10 + digit_value(s.last())
    }
}

/// The digits of an unsigned integer text: after an optional `+`.
pub open spec fn unsigned_digits(s: Seq<char>) -> Seq<char> {
    if s.len() > 0 && s[0] == '+' {
        s.drop_first()
    } else {
        s
    }
}

/// Every character is an ASCII digit.
pub open spec fn all_digits(d: Seq<char>) -> bool {
    forall|i: int| 0 <= i < d.len() ==> '0' <= #[trigger] d[i] <= '9'
}

/// An unsigned integer no greater than `max`, as `str::parse` reads it:
/// an optional `+`, then one or more ASCII digits.
pub open spec fn parse_unsigned(s: Seq<char>, max: int) -> Option<int> {
    let d = unsigned_digits(s);
    if d.len() > 0 && all_digits(d) && digits_value(d) <= max {
        Some(digits_value(d))
    } else {
        None
    }
}

/// Writes a natural number in decimal.
pub fn decimal_string(n: u64) -> (r: Vec<char>)
    ensures
        r@ == decimal_text(n as nat),
    decreases n,
{
    let d = n % 10;
    let c = digit_of(d);
    if n < 10 {
        let mut r: Vec<char> = Vec::new();
        r.push(c);
        assert(r@ =~= seq![digit_char(n as nat)]);
        r
    } else {
        let mut r = decimal_string(n / 10);
        r.push(c);
        r
    }
}

/// The ASCII digit of a value below ten.
fn digit_of(d: u64) -> (r: char)
    requires
        d < 10,
    ensures
        r == digit_char(d as nat),
{
    if d == 0 {
        '0'
    } else if d == 1 {
        '1'
    } else if d == 2 {
        '2'
    } else if d == 3 {
        '3'
    } else if d == 4 {
        '4'
    } else if d == 5 {
        '5'
    } else if d == 6 {
        '6'
    } else if d == 7 {
        '7'
    } else if d == 8 {
        '8'
    } else {
        '9'
    }
}

/// Reads an unsigned integer no greater than `max`.
pub fn parse_unsigned_text(s: &Vec<char>, max: u64) -> (r: Option<u64>)
    ensures
        match r {
            Some(v) => parse_unsigned(s@, max as int) == Some(v as int),
            None => parse_unsigned(s@, max as int) is None,
        },
{
    let start: usize = if s.len() > 0 && s[0] == '+' {
        1
    } else {
        0
    };
    let ghost d = unsigned_digits(s@);
    assert(d =~= s@.skip(start as int));
    if start >= s.len() {
        return None;
    }
    let mut value: u64 = 0;
    let mut i = start;
    assert(s@.skip(start as int).take(0) =~= Seq::<char>::empty());
    while i < s.len()
        invariant
            start <= i <= s.len(),
            d =~= s@.skip(start as int),
            d == unsigned_digits(s@),
            value as int == digits_value(d.take(i - start)),
            value <= max,
            forall|k: int| 0 <= k < i - start ==> '0' <= #[trigger] d[k] <= '9',
        decreases s.len() - i,
    {
        let c = s[i];
        if !('0' <= c && c <= '9') {
            assert(!('0' <= d[i - start] <= '9'));
            assert(!all_digits(d));
            return None;
        }
        let dv = (c as u32 - '0' as u32) as u64;
        assert(d.take(i + 1 - start).drop_last() =~= d.take(i - start));
        assert(d.take(i + 1 - start).last() == c);
        if dv > max || value > (max - dv) / 10 {
            proof {
                assert(digits_value(d.take(i + 1 - start)) == value * 10 + dv);
                assert(value * 10 + dv > max) by (nonlinear_arith)
                    requires
                        dv > max || value > (max - dv) / 10,
                        dv <= 9,
                ;
                if all_digits(d) {
                    lemma_digits_monotone(d, i + 1 - start);
                    assert(digits_value(d) > max);
                }
            }
            return None;
        }
        assert(value * 10 + dv <= max) by (nonlinear_arith)
            requires
                value <= (max - dv) / 10,
                dv <= 9,
                dv <= max,
        ;
        value = value * 10 + dv;
        i += 1;
    }
    assert(d.take(s.len() - start) =~= d);
    Some(value)
}

/// The value of digits is not negative.
/// The decimal text of a number reads back as that number: its digits are
/// ASCII digits, the first is no sign, and their value is the number.
pub proof fn lemma_decimal_text_value(n: nat)
    ensures
        decimal_text(n).len() > 0,
        all_digits(decimal_text(n)),
        digits_value(decimal_text(n)) == n,
        decimal_text(n)[0] != '+',
    decreases n,
{
    let t = decimal_text(n);
    if n < 10 {
        assert(t == seq![digit_char(n)]);
        assert(t.drop_last() =~= Seq::<char>::empty());
        assert(digits_value(Seq::<char>::empty()) == 0);
        assert(t.last() == digit_char(n));
        assert(digit_value(digit_char(n)) == n);
        assert(digits_value(t) == digits_value(t.drop_last()) * 10 + digit_value(t.last()));
    } else {
        lemma_decimal_text_value(n / 10);
        let p = decimal_text(n / 10);
        assert(t == p.push(digit_char(n % 10)));
        assert(t.drop_last() =~= p);
        assert(t.last() == digit_char(n % 10));
        assert(digit_value(digit_char(n % 10)) == n % 10);
        assert(digits_value(t) == digits_value(t.drop_last()) * 10 + digit_value(t.last()));
        assert(n == (n / 10) * 10 + n % 10);
        assert forall|i: int| 0 <= i < t.len() implies '0' <= #[trigger] t[i] <= '9' by {
            if i < p.len() {
                assert(t[i] == p[i]);
            }
        }
        assert(t[0] == p[0]);
    }
}

/// ASCII digits have a value of at least zero.
pub proof fn lemma_digits_nonneg(d: Seq<char>)
    requires
        forall|k: int| 0 <= k < d.len() ==> '0' <= #[trigger] d[k] <= '9',
    ensures
        digits_value(d) >= 0,
    decreases d.len(),
{
    if d.len() > 0 {
        lemma_digits_nonneg(d.drop_last());
    }
}

/// Digit values only grow as digits are appended.
proof fn lemma_digits_monotone(d: Seq<char>, n: int)
    requires
        0 <= n <= d.len(),
        forall|k: int| 0 <= k < d.len() ==> '0' <= #[trigger] d[k] <= '9',
    ensures
        digits_value(d) >= digits_value(d.take(n)),
    decreases d.len() - n,
{
    if n < d.len() {
        lemma_digits_monotone(d, n + 1);
        assert(d.take(n + 1).drop_last() =~= d.take(n));
        assert(d.take(n + 1).last() == d[n]);
        lemma_digits_nonneg(d.take(n));
        assert(digits_value(d.take(n + 1)) >= digits_value(d.take(n))) by (nonlinear_arith)
            requires
                digits_value(d.take(n + 1)) == digits_value(d.take(n)) * 10 + digit_value(d[n]),
                digits_value(d.take(n)) >= 0,
                digit_value(d[n]) >= 0,
        ;
    } else {
        assert(d.take(n) =~= d);
    }
}

/// The value of an environment variable, or a default.
pub open spec fn env_text(env: Seq<(Seq<char>, Seq<char>)>, name: Seq<char>, default: Seq<char>) -> Seq<char> {
    match lookup(env, name) {
        Some(v) => v,
        None => default,
    }
}

/// A boolean environment variable: `1`, `true`, `yes` or `on` in any ASCII
/// case is true, any other value false; absent, the default.
pub open spec fn env_flag(env: Seq<(Seq<char>, Seq<char>)>, name: Seq<char>, default: bool) -> bool {
    match lookup(env, name) {
        Some(v) => eq_ignore_ascii_case(v, "1"@) || eq_ignore_ascii_case(v, "true"@)
            || eq_ignore_ascii_case(v, "yes"@) || eq_ignore_ascii_case(v, "on"@),
        None => default,
    }
}

/// An unsigned environment variable no greater than `max`; the default
/// when it is absent or does not read as such a number.
pub open spec fn env_number(env: Seq<(Seq<char>, Seq<char>)>, name: Seq<char>, default_text: Seq<char>, max: int, fallback: int) -> int {
    match parse_unsigned(env_text(env, name, default_text), max) {
        Some(v) => v,
        None => fallback,
    }
}

/// The view of environment pairs.
pub open spec fn env_view(env: Seq<(String, String)>) -> Seq<(Seq<char>, Seq<char>)> {
    env.map_values(|p: (String, String)| (p.0@, p.1@))
}

/// Reads a variable's value or falls back to default value.
fn env_or(env: &Vec<(String, String)>, name: &str, default: &str) -> (r: String)
    ensures
        r@ == env_text(env_view(env@), name@, default@),
{
    let k = chars_of(name);
    let ghost pv = env_view(env@);
    let mut i: usize = 0;
    assert(pv.skip(0) =~= pv);
    while i < env.len()
        invariant
            i <= env.len(),
            pv == env_view(env@),
            k@ == name@,
            lookup(pv, name@) == lookup(pv.skip(i as int), name@),
        decreases env.len() - i,
    {
        let ename = env[i].0.as_str();
        let ek = chars_of(ename);
        assert(ename@ == env@[i as int].0@);
        assert(ek@ == env@[i as int].0@);
        assert(k@ == name@);
        assert(pv[i as int] == (env@[i as int].0@, env@[i as int].1@));
        assert(pv.skip(i as int)[0] == pv[i as int]);
        assert(pv.skip(i as int).drop_first() =~= pv.skip(i + 1));
        if crate::text::chars_eq(&ek, &k) {
            assert(pv.skip(i as int)[0].0 == name@);
            assert(lookup(pv.skip(i as int), name@) == Some(pv.skip(i as int)[0].1));
            let v = env[i].1.clone();
            assert(v@ == env@[i as int].1@);
            return v;
        }
        assert(pv.skip(i as int)[0].0 != name@);
        assert(pv.skip(i as int).len() > 0);
        assert(lookup(pv.skip(i as int), name@) == lookup(pv.skip(i as int).drop_first(), name@));
        i += 1;
    }
    string_from(default)
}

/// Reads a boolean variable or falls back to default value.
fn env_bool_or(env: &Vec<(String, String)>, name: &str, default: bool) -> (r: bool)
    ensures
        r == env_flag(env_view(env@), name@, default),
{
    let k = chars_of(name);
    let ghost pv = env_view(env@);
    let mut i: usize = 0;
    assert(pv.skip(0) =~= pv);
    while i < env.len()
        invariant
            i <= env.len(),
            pv == env_view(env@),
            k@ == name@,
            lookup(pv, name@) == lookup(pv.skip(i as int), name@),
        decreases env.len() - i,
    {
        let ek = chars_of(env[i].0.as_str());
        assert(pv[i as int] == (env@[i as int].0@, env@[i as int].1@));
        assert(pv.skip(i as int)[0] == pv[i as int]);
        assert(pv.skip(i as int).drop_first() =~= pv.skip(i + 1));
        if crate::text::chars_eq(&ek, &k) {
            let v = chars_of(env[i].1.as_str());
            let one = chars_of("1");
            let t = chars_of("true");
            let y = chars_of("yes");
            let on = chars_of("on");
            return chars_eq_ignore_ascii_case(&v, &one) || chars_eq_ignore_ascii_case(&v, &t)
                || chars_eq_ignore_ascii_case(&v, &y) || chars_eq_ignore_ascii_case(&v, &on);
        }
        i += 1;
    }
    default
}

/// The configuration that a set of environment variables gives.
pub open spec fn config_from(env: Seq<(Seq<char>, Seq<char>)>) -> (Seq<char>, int, Seq<char>, Seq<char>, Seq<char>, int, bool, int) {
    let host = env_text(env, "BROKER_HOST"@, "127.0.0.1"@);
    let port = env_number(env, "BROKER_PORT"@, "8080"@, 65535, 8080);
    (
        host,
        port,
        env_text(env, "BROKER_ID"@, "cognets-broker"@),
        env_text(
            env,
            "BROKER_PUBLIC_ENDPOINT"@,
            "http://"@ + host + ":"@ + decimal_text(port as nat) + "/ngsi-ld/v1"@,
        ),
        env_text(env, "BROKER_DEFRADB_URL"@, "http://127.0.0.1:9181/api/v0/graphql"@),
        env_number(env, "BROKER_OUTBOUND_TIMEOUT_MS"@, "5000"@, 0xffff_ffff_ffff_ffff, 5000),
        env_flag(env, "BROKER_ENTITY_WATCH_ENABLED"@, true),
        env_number(env, "BROKER_ENTITY_WATCH_INTERVAL_MS"@, "1000"@, 0xffff_ffff_ffff_ffff, 1000),
    )
}

impl AppConfig {
    /// The fields of the configuration.
    pub open spec fn fields(&self) -> (Seq<char>, int, Seq<char>, Seq<char>, Seq<char>, int, bool, int) {
        (
            self.host@,
            self.port as int,
            self.broker_id@,
            self.public_endpoint@,
            self.defradb_url@,
            self.outbound_timeout_ms as int,
            self.entity_watch_enabled,
            self.entity_watch_interval_ms as int,
        )
    }

    /// Builds runtime configuration from the process environment, given as
    /// its (name, value) pairs.
    pub fn from_env(env: &Vec<(String, String)>) -> (r: Self)
        ensures
            r.fields() == config_from(env_view(env@)),
    {
        let host = env_or(env, "BROKER_HOST", "127.0.0.1");
        let port_text = env_or(env, "BROKER_PORT", "8080");
        let port: u16 = match parse_unsigned_text(&chars_of(port_text.as_str()), 65535) {
            Some(v) => v as u16,
            None => 8080,
        };
        let broker_id = env_or(env, "BROKER_ID", "cognets-broker");
        let scheme = chars_of("http://");
        let hc = chars_of(host.as_str());
        let colon = chars_of(":");
        let pc = decimal_string(port as u64);
        let base = chars_of("/ngsi-ld/v1");
        let d1 = join_chars(&scheme, &hc);
        let d2 = join_chars(&d1, &colon);
        let d3 = join_chars(&d2, &pc);
        let d4 = join_chars(&d3, &base);
        let default_endpoint = string_of(&d4);
        let public_endpoint = env_or(env, "BROKER_PUBLIC_ENDPOINT", default_endpoint.as_str());
        let defradb_url = env_or(env, "BROKER_DEFRADB_URL", "http://127.0.0.1:9181/api/v0/graphql");
        let timeout_text = env_or(env, "BROKER_OUTBOUND_TIMEOUT_MS", "5000");
        let outbound_timeout_ms = match parse_unsigned_text(&chars_of(timeout_text.as_str()), 0xffff_ffff_ffff_ffff) {
            Some(v) => v,
            None => 5000,
        };
        let entity_watch_enabled = env_bool_or(env, "BROKER_ENTITY_WATCH_ENABLED", true);
        let interval_text = env_or(env, "BROKER_ENTITY_WATCH_INTERVAL_MS", "1000");
        let entity_watch_interval_ms = match parse_unsigned_text(&chars_of(interval_text.as_str()), 0xffff_ffff_ffff_ffff) {
            Some(v) => v,
            None => 1000,
        };
        AppConfig {
            host,
            port,
            broker_id,
            public_endpoint,
            defradb_url,
            outbound_timeout_ms,
            entity_watch_enabled,
            entity_watch_interval_ms,
        }
    }

    /// Builds isolated configuration defaults for tests.
    pub fn for_tests() -> (r: Self)
        ensures
            r.host@ == "127.0.0.1"@,
            r.port == 8080,
            r.broker_id@ == "test-broker"@,
            r.public_endpoint@ == "http://127.0.0.1:8080/ngsi-ld/v1"@,
            r.defradb_url@ == "http://127.0.0.1:9181/api/v0/graphql"@,
            r.outbound_timeout_ms == 2000,
            r.entity_watch_enabled,
            r.entity_watch_interval_ms == 1000,
    {
        AppConfig {
            host: string_from("127.0.0.1"),
            port: 8080,
            broker_id: string_from("test-broker"),
            public_endpoint: string_from("http://127.0.0.1:8080/ngsi-ld/v1"),
            defradb_url: string_from("http://127.0.0.1:9181/api/v0/graphql"),
            outbound_timeout_ms: 2000,
            entity_watch_enabled: true,
            entity_watch_interval_ms: 1000,
        }
    }
}

} // verus!
