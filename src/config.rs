//! What the updater needs before its first cycle: the two keys and the
//! positional arguments `<site> <interval-minutes>`.
use vstd::prelude::*;

use crate::api::Credentials;

verus! {

/// Why the updater cannot start.
#[derive(PartialEq, Eq, Structural, Debug, Clone, Copy)]
pub enum ConfigError {
    MissingSecretApiKey,
    MissingApiKey,
    TooManyArguments,
    MissingSite,
    MissingInterval,
    InvalidInterval,
}

impl ConfigError {
    /// A line that tells the user what to mend.
    pub fn message(&self) -> (r: String)
        ensures
            r@ == match *self {
                ConfigError::MissingSecretApiKey => "The secretapikey environment variable is not set"@,
                ConfigError::MissingApiKey => "The apikey environment variable is not set"@,
                ConfigError::TooManyArguments => "Too many arguments"@,
                ConfigError::MissingSite => "Site argument missing..."@,
                ConfigError::MissingInterval => "Duration argument missing..."@,
                ConfigError::InvalidInterval => "Not a valid positive integer"@,
            },
    {
        match self {
            ConfigError::MissingSecretApiKey => String::from_str(
                "The secretapikey environment variable is not set",
            ),
            ConfigError::MissingApiKey => String::from_str(
                "The apikey environment variable is not set",
            ),
            ConfigError::TooManyArguments => String::from_str("Too many arguments"),
            ConfigError::MissingSite => String::from_str("Site argument missing..."),
            ConfigError::MissingInterval => String::from_str("Duration argument missing..."),
            ConfigError::InvalidInterval => String::from_str("Not a valid positive integer"),
        }
    }
}

/// Everything that stays fixed while the updater runs.
pub struct Config {
    pub site: String,
    pub interval_minutes: u64,
    pub credentials: Credentials,
}

pub open spec fn is_digit(c: char) -> bool {
    '0' <= c && c <= '9'
}

/// The number that the decimal digits `s` write.
pub open spec fn decimal_value(s: Seq<char>) -> int
    decreases s.len(),
{
    if s.len() == 0 {
        0
    } else {
        decimal_value(s.drop_last()) * 10 + (s.last() as int - '0' as int)
    }
}

/// The digits of `s` after the one `+` that may open it.
pub open spec fn unsigned_digits(s: Seq<char>) -> Seq<char> {
    if s.len() > 0 && s[0] == '+' {
        s.drop_first()
    } else {
        s
    }
}

/// The interval that `s` gives: a positive decimal number that fits in 64
/// bits, with an optional `+` in front.
pub open spec fn interval_of(s: Seq<char>) -> Option<u64> {
    let d = unsigned_digits(s);
    if d.len() > 0 && (forall|i: int| 0 <= i < d.len() ==> is_digit(#[trigger] d[i]))
        && 0 < decimal_value(d) <= u64::MAX {
        Some(decimal_value(d) as u64)
    } else {
        None
    }
}

proof fn lemma_prefix_value(s: Seq<char>, k: int)
    requires
        0 <= k <= s.len(),
        forall|i: int| 0 <= i < s.len() ==> is_digit(#[trigger] s[i]),
    ensures
        0 <= decimal_value(s.subrange(0, k)) <= decimal_value(s),
    decreases s.len(),
{
    if k == s.len() {
        assert(s.subrange(0, k) =~= s);
        if s.len() > 0 {
            lemma_prefix_value(s.drop_last(), k - 1);
            assert(s.drop_last().subrange(0, k - 1) =~= s.drop_last());
        }
    } else {
        lemma_prefix_value(s.drop_last(), k);
        assert(s.drop_last().subrange(0, k) =~= s.subrange(0, k));
        lemma_prefix_value(s.drop_last(), s.len() - 1);
        assert(s.drop_last().subrange(0, s.len() - 1) =~= s.drop_last());
    }
}

/// Reads the interval argument, in minutes.
pub fn parse_interval(s: &str) -> (r: Option<u64>)
    ensures
        r == interval_of(s@),
{
    let n = s.unicode_len();
    let mut i: usize = 0;
    if n > 0 && s.get_char(0) == '+' {
        i = 1;
    }
    let ghost d = unsigned_digits(s@);
    assert(d =~= s@.subrange(i as int, n as int));
    if i == n {
        return None;
    }
    let start = i;
    let mut acc: u64 = 0;
    while i < n
        invariant
            start <= i <= n,
            n == s@.len(),
            d == unsigned_digits(s@),
            d == s@.subrange(start as int, n as int),
            acc as int == decimal_value(d.subrange(0, i - start)),
            forall|k: int| 0 <= k < i - start ==> is_digit(#[trigger] d[k]),
        decreases n - i,
    {
        let c = s.get_char(i);
        if !('0' <= c && c <= '9') {
            assert(d[i - start] == c);
            assert(!is_digit(d[i - start]));
            assert(interval_of(s@) is None);
            return None;
        }
        let digit = (c as u32 - '0' as u32) as u64;
        assert(d.subrange(0, i + 1 - start).drop_last() =~= d.subrange(0, i - start));
        if acc > (u64::MAX - digit) / 10 {
            proof {
                assert(acc * 10 + digit > u64::MAX) by (nonlinear_arith)
                    requires
                        acc > (u64::MAX - digit) / 10,
                        digit <= 9,
                ;
                assert(d.subrange(0, i + 1 - start).last() == c);
                assert(decimal_value(d.subrange(0, i + 1 - start)) == acc * 10 + digit);
                if forall|k: int| 0 <= k < d.len() ==> is_digit(#[trigger] d[k]) {
                    lemma_prefix_value(d, i + 1 - start);
                    assert(decimal_value(d) > u64::MAX);
                }
                assert(interval_of(s@) is None);
            }
            return None;
        }
        acc = acc * 10 + digit;
        i = i + 1;
    }
    assert(d.subrange(0, n - start) =~= d);
    if acc == 0 {
        None
    } else {
        Some(acc)
    }
}

/// What the two keys and the positional arguments give, in the order in which
/// they are checked: the secret key, the key, the number of arguments, the
/// site, the interval.
pub open spec fn startup_spec(
    args: Seq<Seq<char>>,
    secret: Option<Seq<char>>,
    api_key: Option<Seq<char>>,
) -> Result<(Seq<char>, u64, Seq<char>, Seq<char>), ConfigError> {
    if secret is None {
        Err(ConfigError::MissingSecretApiKey)
    } else if api_key is None {
        Err(ConfigError::MissingApiKey)
    } else if args.len() > 2 {
        Err(ConfigError::TooManyArguments)
    } else if args.len() == 0 {
        Err(ConfigError::MissingSite)
    } else if args.len() == 1 {
        Err(ConfigError::MissingInterval)
    } else {
        match interval_of(args[1]) {
            None => Err(ConfigError::InvalidInterval),
            Some(m) => Ok((args[0], m, secret->0, api_key->0)),
        }
    }
}

pub open spec fn option_view(o: Option<String>) -> Option<Seq<char>> {
    match o {
        Some(s) => Some(s@),
        None => None,
    }
}

pub open spec fn config_view(r: Result<Config, ConfigError>) -> Result<
    (Seq<char>, u64, Seq<char>, Seq<char>),
    ConfigError,
> {
    match r {
        Ok(c) => Ok(
            (c.site@, c.interval_minutes, c.credentials.secret_api_key@, c.credentials.api_key@),
        ),
        Err(e) => Err(e),
    }
}

/// The configuration from the positional arguments (the program's name not
/// among them) and the values of the `secretapikey` and `apikey` variables.
pub fn startup(args: &Vec<String>, secret: Option<String>, api_key: Option<String>) -> (r: Result<
    Config,
    ConfigError,
>)
    ensures
        config_view(r) == startup_spec(
            args@.map_values(|a: String| a@),
            option_view(secret),
            option_view(api_key),
        ),
{
    let ghost views = args@.map_values(|a: String| a@);
    let secret = match secret {
        Some(s) => s,
        None => return Err(ConfigError::MissingSecretApiKey),
    };
    let api_key = match api_key {
        Some(k) => k,
        None => return Err(ConfigError::MissingApiKey),
    };
    if args.len() > 2 {
        return Err(ConfigError::TooManyArguments);
    }
    if args.len() == 0 {
        return Err(ConfigError::MissingSite);
    }
    if args.len() == 1 {
        return Err(ConfigError::MissingInterval);
    }
    assert(views[1] == args@[1]@);
    match parse_interval(args[1].as_str()) {
        None => Err(ConfigError::InvalidInterval),
        Some(m) => {
            let site = args[0].clone();
            Ok(Config { site, interval_minutes: m, credentials: Credentials::new(secret, api_key) })
        },
    }
}

/// Without either key the updater does not start, whatever the arguments: no
/// configuration exists, so no cycle and no request can be made.
pub proof fn lemma_missing_key_stops_startup(
    args: Seq<Seq<char>>,
    secret: Option<Seq<char>>,
    api_key: Option<Seq<char>>,
)
    requires
        secret is None || api_key is None,
    ensures
        startup_spec(args, secret, api_key) is Err,
        startup_spec(args, secret, api_key) == Err::<(Seq<char>, u64, Seq<char>, Seq<char>), ConfigError>(
            if secret is None {
                ConfigError::MissingSecretApiKey
            } else {
                ConfigError::MissingApiKey
            },
        ),
{
}

/// With more than two positional arguments the updater does not start: where
/// both keys are set it reports too many arguments.
pub proof fn lemma_extra_arguments_stop_startup(
    args: Seq<Seq<char>>,
    secret: Option<Seq<char>>,
    api_key: Option<Seq<char>>,
)
    requires
        args.len() > 2,
    ensures
        startup_spec(args, secret, api_key) is Err,
        secret is Some && api_key is Some ==> startup_spec(args, secret, api_key) == Err::<
            (Seq<char>, u64, Seq<char>, Seq<char>),
            ConfigError,
        >(ConfigError::TooManyArguments),
{
}

impl Config {
    /// The wait between two cycles in seconds, or the largest wait a `u64`
    /// holds where the minutes would overflow it.
    pub fn interval_seconds(&self) -> (r: u64)
        ensures
            r == (if self.interval_minutes * 60 <= u64::MAX {
                self.interval_minutes * 60
            } else {
                u64::MAX as int
            }),
    {
        if self.interval_minutes <= u64::MAX / 60 {
            self.interval_minutes * 60
        } else {
            u64::MAX
        }
    }
}

} // verus!
