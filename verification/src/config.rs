//! Bot settings and roles.
use crate::decimal::{decimal_parse, opt_view, parse_decimal, Dec};
use crate::text::str_eq;
use vstd::prelude::*;
use vstd::string::StringExecFns;
use vstd::string::StrSliceExecFns;

verus! {

/// What a bot does each cycle: makers rest limit orders around the mid price,
/// takers send market orders against the book.
#[derive(Debug, PartialEq, Eq, Clone, Copy, Structural)]
pub enum BotRole {
    Taker,
    Maker,
}

/// The name a role is written with.
pub open spec fn role_name(role: BotRole) -> Seq<char> {
    match role {
        BotRole::Maker => "maker"@,
        BotRole::Taker => "taker"@,
    }
}

/// The message for a role name that is not one.
pub open spec fn invalid_role_message(s: Seq<char>) -> Seq<char> {
    "Invalid bot role `"@ + s + "`, expected: maker or taker"@
}

impl BotRole {
    /// The role's name: `maker` or `taker`.
    pub fn to_string(&self) -> (s: String)
        ensures
            s@ == role_name(*self),
    {
        match self {
            BotRole::Maker => String::from_str("maker"),
            BotRole::Taker => String::from_str("taker"),
        }
    }
}

/// The role a name reads as, or the refusal's message.
pub open spec fn parse_role_spec(s: Seq<char>) -> Result<BotRole, Seq<char>> {
    if s == "taker"@ {
        Ok(BotRole::Taker)
    } else if s == "maker"@ {
        Ok(BotRole::Maker)
    } else {
        Err(invalid_role_message(s))
    }
}

/// Reads a role from its name; any other text is refused with a message that
/// quotes it.
pub fn parse_role(s: &str) -> (r: Result<BotRole, String>)
    ensures
        match r {
            Ok(role) => parse_role_spec(s@) == Ok::<BotRole, Seq<char>>(role),
            Err(m) => parse_role_spec(s@) == Err::<BotRole, Seq<char>>(m@),
        },
{
    proof {
        lemma_role_names_differ();
    }
    if str_eq(s, "taker") {
        Ok(BotRole::Taker)
    } else if str_eq(s, "maker") {
        Ok(BotRole::Maker)
    } else {
        let mut m = String::from_str("Invalid bot role `");
        m.append(s);
        m.append("`, expected: maker or taker");
        Err(m)
    }
}

impl std::str::FromStr for BotRole {
    type Err = String;

    fn from_str(s: &str) -> (r: Result<BotRole, String>)
        ensures
            match r {
                Ok(role) => parse_role_spec(s@) == Ok::<BotRole, Seq<char>>(role),
                Err(m) => parse_role_spec(s@) == Err::<BotRole, Seq<char>>(m@),
            },
    {
        parse_role(s)
    }
}

/// One bot's settings. Makers read the spread, stale threshold and order cap;
/// takers leave them unset.
#[derive(Debug)]
pub struct Config {
    pub email: String,
    pub password: String,
    pub interval_secs: u64,
    pub role: BotRole,
    pub spread: Option<Dec>,
    pub stale_threshold: Option<Dec>,
    pub order_cap: Option<u8>,
}

impl Config {
    pub fn new(
        email: String,
        password: String,
        interval_secs: u64,
        role: BotRole,
        spread: Option<Dec>,
        stale_threshold: Option<Dec>,
        order_cap: Option<u8>,
    ) -> (c: Config)
        ensures
            c == (Config {
                email,
                password,
                interval_secs,
                role,
                spread,
                stale_threshold,
                order_cap,
            }),
    {
        Config { email, password, interval_secs, role, spread, stale_threshold, order_cap }
    }
}

proof fn lemma_role_names_differ()
    ensures
        "taker"@ != "maker"@,
{
    reveal_strlit("taker");
    reveal_strlit("maker");
    assert("taker"@[0] != "maker"@[0]);
}

/// A role's name reads back as that role.
pub proof fn law_role_name_round_trip(role: BotRole)
    ensures
        parse_role_spec(role_name(role)) == Ok::<BotRole, Seq<char>>(role),
{
    lemma_role_names_differ();
}

// ---------------------------------------------------------------------------
// Settings from environment variables.
// ---------------------------------------------------------------------------

/// The value of the first variable named `key`.
pub open spec fn lookup_var(vars: Seq<(String, String)>, key: Seq<char>) -> Option<Seq<char>>
    decreases vars.len(),
{
    if vars.len() == 0 {
        None
    } else if vars[0].0@ == key {
        Some(vars[0].1@)
    } else {
        lookup_var(vars.drop_first(), key)
    }
}

/// The refusal for a variable that is missing.
pub open spec fn unset_message(key: Seq<char>) -> Seq<char> {
    key + " must be set"@
}

/// The refusal for a variable whose value does not read.
pub open spec fn invalid_message(key: Seq<char>) -> Seq<char> {
    key + " must be a valid value"@
}

/// The character of a decimal digit.
pub open spec fn digit_char(d: nat) -> char {
    if d == 0 {
        '0'
    } else if d == 1 {
        '1'
    } else if d == 2 {
        '2'
    } else if d == 3 {
        '3'
    } else if d == 4 {
        '4'
    } else if d == 5 {
        '5'
    } else if d == 6 {
        '6'
    } else if d == 7 {
        '7'
    } else if d == 8 {
        '8'
    } else {
        '9'
    }
}

/// `n` written in decimal, without leading zeros.
pub open spec fn decimal_digits(n: nat) -> Seq<char>
    decreases n,
{
    if n < 10 {
        seq![digit_char(n)]
    } else {
        decimal_digits(n / 10).push(digit_char(n % 10))
    }
}

/// The name of bot `i`'s variable `suffix`: `BOT_{i}_{suffix}`.
pub open spec fn bot_key(i: nat, suffix: Seq<char>) -> Seq<char> {
    "BOT_"@ + decimal_digits(i) + "_"@ + suffix
}

pub open spec fn is_digit(c: char) -> bool {
    '0' <= c <= '9'
}

/// The value of a string of decimal digits.
pub open spec fn digits_value(b: Seq<char>) -> nat
    decreases b.len(),
{
    if b.len() == 0 {
        0
    } else {
        digits_value(b.drop_last()) * 10 + ((b.last() as int - 48) as nat)
    }
}

/// Whether every character is an ASCII digit.
pub open spec fn all_digits(b: Seq<char>) -> bool {
    forall|j: int| 0 <= j < b.len() ==> is_digit(#[trigger] b[j])
}

/// What follows an optional leading `+`.
pub open spec fn unsigned_body(s: Seq<char>) -> Seq<char> {
    if s.len() > 0 && s[0] == '+' {
        s.drop_first()
    } else {
        s
    }
}

/// A whole number as std reads one (`str::parse` for an unsigned type): an
/// optional `+`, then one or more ASCII digits, with a value of at most `max`.
pub open spec fn parse_uint_spec(s: Seq<char>, max: nat) -> Option<nat> {
    let body = unsigned_body(s);
    if body.len() > 0 && all_digits(body) && digits_value(body) <= max {
        Some(digits_value(body))
    } else {
        None
    }
}

/// A variable that must be set.
pub open spec fn text_var(vars: Seq<(String, String)>, key: Seq<char>) -> Result<Seq<char>, Seq<char>> {
    match lookup_var(vars, key) {
        Some(v) => Ok(v),
        None => Err(unset_message(key)),
    }
}

/// A variable that must be set to a whole number of at most `max`.
pub open spec fn uint_var(vars: Seq<(String, String)>, key: Seq<char>, max: nat) -> Result<nat, Seq<char>> {
    match lookup_var(vars, key) {
        Some(v) => match parse_uint_spec(v, max) {
            Some(n) => Ok(n),
            None => Err(invalid_message(key)),
        },
        None => Err(unset_message(key)),
    }
}

/// A variable that must be set to a decimal, as rust_decimal reads one.
pub open spec fn dec_var(vars: Seq<(String, String)>, key: Seq<char>) -> Result<(int, nat), Seq<char>> {
    match lookup_var(vars, key) {
        Some(v) => match decimal_parse(v) {
            Some(d) => Ok(d),
            None => Err(invalid_message(key)),
        },
        None => Err(unset_message(key)),
    }
}

/// A variable that must be set to a role's name.
pub open spec fn role_var(vars: Seq<(String, String)>, key: Seq<char>) -> Result<BotRole, Seq<char>> {
    match lookup_var(vars, key) {
        Some(v) => match parse_role_spec(v) {
            Ok(role) => Ok(role),
            Err(_) => Err(invalid_message(key)),
        },
        None => Err(unset_message(key)),
    }
}

/// One bot's settings as plain values: email, password, interval, role,
/// spread, stale threshold and order cap.
pub type Settings = (Seq<char>, Seq<char>, u64, BotRole, Option<(int, nat)>, Option<(int, nat)>, Option<u8>);

/// A configuration as plain values.
pub open spec fn settings_of(c: Config) -> Settings {
    (
        c.email@,
        c.password@,
        c.interval_secs,
        c.role,
        opt_view(c.spread),
        opt_view(c.stale_threshold),
        c.order_cap,
    )
}

/// Bot `i`'s settings, read key by key: its role, email and password, then for
/// a taker its interval, for a maker its spread, interval, stale threshold and
/// order cap; the refusal of the first key that is missing or does not read.
pub open spec fn bot_settings(vars: Seq<(String, String)>, i: nat) -> Result<Settings, Seq<char>> {
    match role_var(vars, bot_key(i, "ROLE"@)) {
        Err(e) => Err(e),
        Ok(role) => match text_var(vars, bot_key(i, "EMAIL"@)) {
            Err(e) => Err(e),
            Ok(email) => match text_var(vars, bot_key(i, "PASSWORD"@)) {
                Err(e) => Err(e),
                Ok(password) => match role {
                    BotRole::Taker => match uint_var(vars, bot_key(i, "INTERVAL_SECS"@), u64::MAX as nat) {
                        Err(e) => Err(e),
                        Ok(secs) => Ok((email, password, secs as u64, role, None, None, None)),
                    },
                    BotRole::Maker => match dec_var(vars, bot_key(i, "SPREAD"@)) {
                        Err(e) => Err(e),
                        Ok(spread) => match uint_var(vars, bot_key(i, "INTERVAL_SECS"@), u64::MAX as nat) {
                            Err(e) => Err(e),
                            Ok(secs) => match dec_var(vars, bot_key(i, "STALE_THRESHOLD"@)) {
                                Err(e) => Err(e),
                                Ok(stale) => match uint_var(vars, bot_key(i, "ORDER_CAP"@), 255) {
                                    Err(e) => Err(e),
                                    Ok(cap) => Ok(
                                        (
                                            email,
                                            password,
                                            secs as u64,
                                            role,
                                            Some(spread),
                                            Some(stale),
                                            Some(cap as u8),
                                        ),
                                    ),
                                },
                            },
                        },
                    },
                },
            },
        },
    }
}

/// The settings of bots `1..=n`, in order, or the first refusal.
pub open spec fn settings_upto(vars: Seq<(String, String)>, n: nat) -> Result<Seq<Settings>, Seq<char>>
    decreases n,
{
    if n == 0 {
        Ok(Seq::empty())
    } else {
        match settings_upto(vars, (n - 1) as nat) {
            Err(e) => Err(e),
            Ok(s) => match bot_settings(vars, n) {
                Err(e) => Err(e),
                Ok(b) => Ok(s.push(b)),
            },
        }
    }
}

/// The exchange's address and every bot's settings: `EXCHANGE_URL`, then
/// `BOT_COUNT` (at most 255), then each bot's keys; or the first refusal.
pub open spec fn configs_spec(vars: Seq<(String, String)>) -> Result<(Seq<char>, Seq<Settings>), Seq<char>> {
    match text_var(vars, "EXCHANGE_URL"@) {
        Err(e) => Err(e),
        Ok(url) => match uint_var(vars, "BOT_COUNT"@, 255) {
            Err(e) => Err(e),
            Ok(n) => match settings_upto(vars, n) {
                Err(e) => Err(e),
                Ok(s) => Ok((url, s)),
            },
        },
    }
}

proof fn lemma_settings_err_stays(vars: Seq<(String, String)>, i: nat, n: nat)
    requires
        i <= n,
        settings_upto(vars, i) is Err,
    ensures
        settings_upto(vars, n) == settings_upto(vars, i),
    decreases n - i,
{
    if i < n {
        lemma_settings_err_stays(vars, i, (n - 1) as nat);
    }
}

/// The value of the first variable named `key`.
fn find_var(vars: &Vec<(String, String)>, key: &str) -> (r: Option<String>)
    ensures
        match r {
            Some(v) => lookup_var(vars@, key@) == Some(v@),
            None => lookup_var(vars@, key@) is None,
        },
{
    let n = vars.len();
    let mut i: usize = 0;
    assert(vars@.skip(0) =~= vars@);
    while i < n
        invariant
            n == vars@.len(),
            i <= n,
            lookup_var(vars@, key@) == lookup_var(vars@.skip(i as int), key@),
        decreases n - i,
    {
        assert(vars@.skip(i as int).drop_first() =~= vars@.skip(i + 1));
        if str_eq(vars[i].0.as_str(), key) {
            return Some(vars[i].1.clone());
        }
        i = i + 1;
    }
    None
}

fn message(key: &str, tail: &str) -> (m: String)
    ensures
        m@ == key@ + tail@,
{
    let mut m = String::from_str(key);
    m.append(tail);
    m
}

/// The one-character string of a decimal digit.
fn digit_text(d: u64) -> (s: &'static str)
    requires
        d < 10,
    ensures
        s@ == seq![digit_char(d as nat)],
{
    proof {
        reveal_strlit("0");
        reveal_strlit("1");
        reveal_strlit("2");
        reveal_strlit("3");
        reveal_strlit("4");
        reveal_strlit("5");
        reveal_strlit("6");
        reveal_strlit("7");
        reveal_strlit("8");
        reveal_strlit("9");
    }
    if d == 0 {
        "0"
    } else if d == 1 {
        "1"
    } else if d == 2 {
        "2"
    } else if d == 3 {
        "3"
    } else if d == 4 {
        "4"
    } else if d == 5 {
        "5"
    } else if d == 6 {
        "6"
    } else if d == 7 {
        "7"
    } else if d == 8 {
        "8"
    } else {
        "9"
    }
}

/// `n` written in decimal.
fn digits_text(n: u64) -> (s: String)
    ensures
        s@ == decimal_digits(n as nat),
    decreases n,
{
    if n < 10 {
        String::from_str(digit_text(n))
    } else {
        let mut s = digits_text(n / 10);
        s.append(digit_text(n % 10));
        s
    }
}

/// The name `BOT_{i}_{suffix}`.
fn bot_key_text(i: u64, suffix: &str) -> (k: String)
    ensures
        k@ == bot_key(i as nat, suffix@),
{
    let mut k = String::from_str("BOT_");
    let digits = digits_text(i);
    k.append(digits.as_str());
    k.append("_");
    k.append(suffix);
    k
}

proof fn lemma_value_step(b: Seq<char>, j: int)
    requires
        0 <= j < b.len(),
    ensures
        digits_value(b.take(j + 1)) == digits_value(b.take(j)) * 10 + ((b[j] as int - 48) as nat),
{
    assert(b.take(j + 1).drop_last() =~= b.take(j));
}

proof fn lemma_value_prefix(b: Seq<char>, k: int)
    requires
        0 <= k <= b.len(),
    ensures
        digits_value(b.take(k)) <= digits_value(b),
    decreases b.len(),
{
    if k < b.len() {
        lemma_value_prefix(b.drop_last(), k);
        assert(b.drop_last().take(k) =~= b.take(k));
    } else {
        assert(b.take(k) =~= b);
    }
}

/// A whole number of at most `max`, as std reads one.
fn parse_uint(s: &str, max: u64) -> (r: Option<u64>)
    ensures
        match r {
            Some(n) => parse_uint_spec(s@, max as nat) == Some(n as nat),
            None => parse_uint_spec(s@, max as nat) is None,
        },
{
    let n = s.unicode_len();
    let start: usize = if n > 0 && s.get_char(0) == '+' {
        1
    } else {
        0
    };
    let ghost body = unsigned_body(s@);
    assert(body =~= s@.skip(start as int));
    if start == n {
        assert(body.len() == 0);
        assert(parse_uint_spec(s@, max as nat) is None);
        return None;
    }
    let mut acc: u64 = 0;
    let mut i: usize = start;
    assert(body.take(0) =~= Seq::<char>::empty());
    while i < n
        invariant
            n == s@.len(),
            start <= i <= n,
            start < n,
            body =~= s@.skip(start as int),
            body == unsigned_body(s@),
            forall|j: int| 0 <= j < i - start ==> is_digit(#[trigger] body[j]),
            acc == digits_value(body.take(i - start)),
            acc <= max,
        decreases n - i,
    {
        let c = s.get_char(i);
        assert(c == body[i - start]);
        if !('0' <= c && c <= '9') {
            assert(!is_digit(body[i - start]));
            assert(0 <= i - start < body.len());
            assert(!all_digits(body));
            assert(parse_uint_spec(s@, max as nat) is None);
            return None;
        }
        let d = (c as u32 - 48) as u64;
        proof {
            lemma_value_step(body, i - start);
        }
        let next: u128 = acc as u128 * 10 + d as u128;
        if next > max as u128 {
            proof {
                lemma_value_prefix(body, i - start + 1);
                assert(digits_value(body.take(i - start + 1)) == next);
                assert(digits_value(body) > max);
                assert(parse_uint_spec(s@, max as nat) is None);
            }
            return None;
        }
        acc = next as u64;
        i = i + 1;
    }
    assert(body.take(n - start) =~= body);
    assert(body.len() == n - start);
    assert(all_digits(body));
    assert(digits_value(body) == acc);
    Some(acc)
}

fn text_of(vars: &Vec<(String, String)>, key: &str) -> (r: Result<String, String>)
    ensures
        match r {
            Ok(v) => text_var(vars@, key@) == Ok::<Seq<char>, Seq<char>>(v@),
            Err(m) => text_var(vars@, key@) == Err::<Seq<char>, Seq<char>>(m@),
        },
{
    match find_var(vars, key) {
        Some(v) => Ok(v),
        None => Err(message(key, " must be set")),
    }
}

fn uint_of(vars: &Vec<(String, String)>, key: &str, max: u64) -> (r: Result<u64, String>)
    ensures
        match r {
            Ok(n) => uint_var(vars@, key@, max as nat) == Ok::<nat, Seq<char>>(n as nat),
            Err(m) => uint_var(vars@, key@, max as nat) == Err::<nat, Seq<char>>(m@),
        },
{
    match find_var(vars, key) {
        Some(v) => match parse_uint(v.as_str(), max) {
            Some(n) => Ok(n),
            None => Err(message(key, " must be a valid value")),
        },
        None => Err(message(key, " must be set")),
    }
}

fn dec_of(vars: &Vec<(String, String)>, key: &str) -> (r: Result<Dec, String>)
    ensures
        match r {
            Ok(d) => dec_var(vars@, key@) == Ok::<(int, nat), Seq<char>>(d@),
            Err(m) => dec_var(vars@, key@) == Err::<(int, nat), Seq<char>>(m@),
        },
{
    match find_var(vars, key) {
        Some(v) => match parse_decimal(v.as_str()) {
            Some(d) => Ok(d),
            None => Err(message(key, " must be a valid value")),
        },
        None => Err(message(key, " must be set")),
    }
}

fn role_of(vars: &Vec<(String, String)>, key: &str) -> (r: Result<BotRole, String>)
    ensures
        match r {
            Ok(role) => role_var(vars@, key@) == Ok::<BotRole, Seq<char>>(role),
            Err(m) => role_var(vars@, key@) == Err::<BotRole, Seq<char>>(m@),
        },
{
    match find_var(vars, key) {
        Some(v) => match parse_role(v.as_str()) {
            Ok(role) => Ok(role),
            Err(_) => Err(message(key, " must be a valid value")),
        },
        None => Err(message(key, " must be set")),
    }
}

/// Bot `i`'s configuration, or the refusal of its first key that is missing or
/// does not read.
fn bot_config(vars: &Vec<(String, String)>, i: u64) -> (r: Result<Config, String>)
    ensures
        match r {
            Ok(c) => bot_settings(vars@, i as nat) == Ok::<Settings, Seq<char>>(settings_of(c)),
            Err(m) => bot_settings(vars@, i as nat) == Err::<Settings, Seq<char>>(m@),
        },
{
    let k = bot_key_text(i, "ROLE");
    let role = match role_of(vars, k.as_str()) {
        Ok(role) => role,
        Err(m) => return Err(m),
    };
    let k = bot_key_text(i, "EMAIL");
    let email = match text_of(vars, k.as_str()) {
        Ok(v) => v,
        Err(m) => return Err(m),
    };
    let k = bot_key_text(i, "PASSWORD");
    let password = match text_of(vars, k.as_str()) {
        Ok(v) => v,
        Err(m) => return Err(m),
    };
    match role {
        BotRole::Taker => {
            let k = bot_key_text(i, "INTERVAL_SECS");
            let secs = match uint_of(vars, k.as_str(), u64::MAX) {
                Ok(n) => n,
                Err(m) => return Err(m),
            };
            Ok(Config::new(email, password, secs, role, None, None, None))
        },
        BotRole::Maker => {
            let k = bot_key_text(i, "SPREAD");
            let spread = match dec_of(vars, k.as_str()) {
                Ok(d) => d,
                Err(m) => return Err(m),
            };
            let k = bot_key_text(i, "INTERVAL_SECS");
            let secs = match uint_of(vars, k.as_str(), u64::MAX) {
                Ok(n) => n,
                Err(m) => return Err(m),
            };
            let k = bot_key_text(i, "STALE_THRESHOLD");
            let stale = match dec_of(vars, k.as_str()) {
                Ok(d) => d,
                Err(m) => return Err(m),
            };
            let k = bot_key_text(i, "ORDER_CAP");
            let cap = match uint_of(vars, k.as_str(), 255) {
                Ok(n) => n as u8,
                Err(m) => return Err(m),
            };
            Ok(Config::new(email, password, secs, role, Some(spread), Some(stale), Some(cap)))
        },
    }
}

/// The exchange's address and each bot's configuration, read from the
/// variables `EXCHANGE_URL`, `BOT_COUNT` and, for each bot `i` from 1, its
/// `BOT_{i}_*` keys (see `configs_spec`); or the refusal of the first key that
/// is missing (`{key} must be set`) or does not read (`{key} must be a valid
/// value`). Where a name occurs twice, the first one counts.
pub fn configs_from_vars(vars: &Vec<(String, String)>) -> (r: Result<(String, Vec<Config>), String>)
    ensures
        match r {
            Ok((url, cs)) => configs_spec(vars@) == Ok::<(Seq<char>, Seq<Settings>), Seq<char>>(
                (url@, cs@.map_values(|c: Config| settings_of(c))),
            ),
            Err(m) => configs_spec(vars@) == Err::<(Seq<char>, Seq<Settings>), Seq<char>>(m@),
        },
{
    let url = match text_of(vars, "EXCHANGE_URL") {
        Ok(v) => v,
        Err(m) => return Err(m),
    };
    let count = match uint_of(vars, "BOT_COUNT", 255) {
        Ok(n) => n,
        Err(m) => return Err(m),
    };
    let mut configs: Vec<Config> = Vec::new();
    let mut i: u64 = 1;
    assert(configs@.map_values(|c: Config| settings_of(c)) =~= Seq::<Settings>::empty());
    while i <= count
        invariant
            1 <= i <= count + 1,
            count <= 255,
            text_var(vars@, "EXCHANGE_URL"@) == Ok::<Seq<char>, Seq<char>>(url@),
            uint_var(vars@, "BOT_COUNT"@, 255) == Ok::<nat, Seq<char>>(count as nat),
            settings_upto(vars@, (i - 1) as nat) == Ok::<Seq<Settings>, Seq<char>>(
                configs@.map_values(|c: Config| settings_of(c)),
            ),
        decreases count + 1 - i,
    {
        match bot_config(vars, i) {
            Ok(c) => {
                proof {
                    assert(configs@.push(c).map_values(|c: Config| settings_of(c)) =~= configs@.map_values(
                        |c: Config| settings_of(c),
                    ).push(settings_of(c)));
                }
                configs.push(c);
            },
            Err(m) => {
                proof {
                    lemma_settings_err_stays(vars@, i as nat, count as nat);
                }
                return Err(m);
            },
        }
        i = i + 1;
    }
    Ok((url, configs))
}

} // verus!
