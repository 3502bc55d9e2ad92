//! Issuing the tokens by which Connectors prove what they may expose.

use vstd::prelude::*;
use vstd::string::*;
use vstd::utf8::*;
use crate::auth;
use crate::auth::{sign_jwt, ClaimsView, TunnelClaims};
use crate::error::ErrorView;
use crate::hostname;
use crate::hostname::normalize_hostname;
use crate::mesh_protocol::MAX_ID_LEN;
use crate::text;
use crate::text::{parse_unsigned, quote, same_text};

verus! {

/// What a token is asked for with.
#[derive(Debug)]
pub struct TokenArgs {
    pub secret: Option<String>,
    /// A file that holds the secret
    pub secret_file: Option<String>,
    pub sub: Option<String>,
    pub hostnames: Vec<String>,
    pub exp_hours: u64,
}

/// A [`TokenArgs`] by its values.
#[verifier::ext_equal]
pub struct TokenArgsView {
    pub secret: Option<Seq<char>>,
    pub secret_file: Option<Seq<char>>,
    pub sub: Option<Seq<char>>,
    pub hostnames: Seq<Seq<char>>,
    pub exp_hours: u64,
}

impl View for TokenArgs {
    type V = TokenArgsView;

    open spec fn view(&self) -> TokenArgsView {
        TokenArgsView {
            secret: text::opt_view(self.secret),
            secret_file: text::opt_view(self.secret_file),
            sub: text::opt_view(self.sub),
            hostnames: text::views(self.hostnames@),
            exp_hours: self.exp_hours,
        }
    }
}

/// What is asked for where nothing is said: a token for a year.
pub open spec fn default_args() -> TokenArgsView {
    TokenArgsView {
        secret: None,
        secret_file: None,
        sub: None,
        hostnames: Seq::empty(),
        exp_hours: 8760,
    }
}

/// Whether a flag is known.
pub open spec fn is_flag(flag: Seq<char>) -> bool {
    flag == "--secret"@ || flag == "--secret-file"@ || flag == "--sub"@ || flag == "--hostname"@
        || flag == "--exp-hours"@
}

/// The message for a flag that is not known.
pub open spec fn unknown_flag(flag: Seq<char>) -> Seq<char> {
    "unknown flag: "@ + flag
        + "\nUsage: sievetube-edge issue-token [--secret <secret> | --secret-file <path>] --sub <tenant_id> --hostname <hostname> [--exp-hours <hours>]"@
}

/// The arguments with one flag and its value taken in.
pub open spec fn with_flag(args: TokenArgsView, flag: Seq<char>, value: Seq<char>) -> Result<
    TokenArgsView,
    Seq<char>,
> {
    if flag == "--secret"@ {
        Ok(TokenArgsView { secret: Some(value), ..args })
    } else if flag == "--secret-file"@ {
        Ok(TokenArgsView { secret_file: Some(value), ..args })
    } else if flag == "--sub"@ {
        Ok(TokenArgsView { sub: Some(value), ..args })
    } else if flag == "--hostname"@ {
        Ok(TokenArgsView { hostnames: args.hostnames.push(value), ..args })
    } else {
        match text::parsed_unsigned(value, u64::MAX as nat) {
            Some(n) => Ok(TokenArgsView { exp_hours: n as u64, ..args }),
            None => Err("--exp-hours must be a positive integer"@),
        }
    }
}

/// The arguments from a position on, taken in after those before it.
pub open spec fn args_from(words: Seq<Seq<char>>, from: int, args: TokenArgsView) -> Result<
    TokenArgsView,
    Seq<char>,
>
    decreases words.len() - from,
{
    if from < 0 || from >= words.len() {
        Ok(args)
    } else if !is_flag(words[from]) {
        Err(unknown_flag(words[from]))
    } else if from + 1 >= words.len() {
        Err(words[from] + " requires a value"@)
    } else {
        match with_flag(args, words[from], words[from + 1]) {
            Ok(more) => args_from(words, from + 2, more),
            Err(e) => Err(e),
        }
    }
}

fn take_flag(args: TokenArgs, flag: &str, value: &String) -> (r: Result<TokenArgs, String>)
    ensures
        match with_flag(args@, flag@, value@) {
            Ok(more) => r is Ok && r->Ok_0@ == more,
            Err(e) => r is Err && r->Err_0@ == e,
        },
{
    let mut args: TokenArgs = args;
    if same_text(flag, "--secret") {
        args.secret = Some(value.clone());
        return Ok(args);
    }
    if same_text(flag, "--secret-file") {
        args.secret_file = Some(value.clone());
        return Ok(args);
    }
    if same_text(flag, "--sub") {
        args.sub = Some(value.clone());
        return Ok(args);
    }
    if same_text(flag, "--hostname") {
        let ghost before = text::views(args.hostnames@);
        args.hostnames.push(value.clone());
        assert(text::views(args.hostnames@) =~= before.push(value@));
        return Ok(args);
    }
    match parse_unsigned(value.as_str(), u64::MAX) {
        Some(n) => {
            args.exp_hours = n;
            Ok(args)
        },
        None => Err("--exp-hours must be a positive integer".to_owned()),
    }
}

/// Reads the arguments of `issue-token`.
pub fn parse_token_args(words: &Vec<String>) -> (r: Result<TokenArgs, String>)
    ensures
        match args_from(text::views(words@), 0, default_args()) {
            Ok(args) => r is Ok && r->Ok_0@ == args,
            Err(e) => r is Err && r->Err_0@ == e,
        },
{
    let ghost all = text::views(words@);
    let mut args: TokenArgs = TokenArgs {
        secret: None,
        secret_file: None,
        sub: None,
        hostnames: Vec::new(),
        exp_hours: 8760,
    };
    assert(args@ =~= default_args());
    let mut i: usize = 0;
    while i < words.len()
        invariant
            i <= words.len() == all.len(),
            all == text::views(words@),
            args_from(all, 0, default_args()) == args_from(all, i as int, args@),
        decreases words.len() - i,
    {
        let flag: &str = words[i].as_str();
        assert(all[i as int] == flag@);
        if !(same_text(flag, "--secret") || same_text(flag, "--secret-file") || same_text(
            flag,
            "--sub",
        ) || same_text(flag, "--hostname") || same_text(flag, "--exp-hours")) {
            let mut e: String = "unknown flag: ".to_owned();
            e.append(flag);
            e.append(
                "\nUsage: sievetube-edge issue-token [--secret <secret> | --secret-file <path>] --sub <tenant_id> --hostname <hostname> [--exp-hours <hours>]",
            );
            return Err(e);
        }
        if words.len() - i < 2 {
            return Err(flag.to_owned().concat(" requires a value"));
        }
        assert(all[i + 1] == words@[i + 1]@);
        match take_flag(args, flag, &words[i + 1]) {
            Ok(more) => {
                args = more;
            },
            Err(e) => {
                return Err(e);
            },
        }
        i += 2;
    }
    Ok(args)
}

/// Where the secret of a token comes from.
#[derive(Debug, PartialEq, Eq)]
pub enum SecretSource {
    Given(String),
    /// The content of a file
    File(String),
    /// The environment variable `SIEVETUBE_JWT_SECRET`
    Environment,
}

impl TokenArgs {
    /// Where the secret comes from: the arguments, else a file, else the
    /// environment, so that it need not stand in the argument list.
    pub fn secret_source(&self) -> (r: SecretSource)
        ensures
            match self@.secret {
                Some(s) => r is Given && r->Given_0@ == s,
                None => match self@.secret_file {
                    Some(path) => r is File && r->File_0@ == path,
                    None => r is Environment,
                },
            },
    {
        match &self.secret {
            Some(s) => SecretSource::Given(s.clone()),
            None => match &self.secret_file {
                Some(path) => SecretSource::File(path.clone()),
                None => SecretSource::Environment,
            },
        }
    }
}

/// The normal forms of hostnames, or why one has none.
pub open spec fn normalized_all(names: Seq<Seq<char>>) -> Result<Seq<Seq<char>>, Seq<char>>
    decreases names.len(),
{
    if names.len() == 0 {
        Ok(Seq::empty())
    } else {
        match normalized_all(names.drop_last()) {
            Err(e) => Err(e),
            Ok(before) => match hostname::normalized(names.last(), false, false) {
                Ok(name) => Ok(before.push(name)),
                Err(e) => Err("invalid --hostname "@ + text::quoted(names.last()) + ": "@ + e),
            },
        }
    }
}

/// The claims of a token, or why none is issued.
pub open spec fn claims_of(args: TokenArgsView, has_secret: bool, now: u64) -> Result<
    ClaimsView,
    Seq<char>,
> {
    if !has_secret {
        Err("--secret is required"@)
    } else if args.sub is None {
        Err("--sub is required"@)
    } else if args.sub->0.len() == 0 || encode_utf8(args.sub->0).len() > MAX_ID_LEN {
        Err("--sub must be between 1 and 256 bytes"@)
    } else if args.hostnames.len() == 0 {
        Err("at least one --hostname is required"@)
    } else {
        match normalized_all(args.hostnames) {
            Err(e) => Err(e),
            Ok(hostnames) => Ok(
                ClaimsView {
                    sub: args.sub->0,
                    hostnames,
                    exp: (now + args.exp_hours * 3600) as u64,
                    iat: now,
                },
            ),
        }
    }
}

/// The claims of a token, or why none is issued. Its expiry must be a time that
/// can be written.
pub fn token_claims(args: &TokenArgs, has_secret: bool, now: u64) -> (r: Result<
    TunnelClaims,
    String,
>)
    requires
        now + args.exp_hours * 3600 <= u64::MAX,
    ensures
        match claims_of(args@, has_secret, now) {
            Ok(claims) => r is Ok && r->Ok_0@ == claims,
            Err(e) => r is Err && r->Err_0@ == e,
        },
{
    if !has_secret {
        return Err("--secret is required".to_owned());
    }
    let sub: &String = match &args.sub {
        Some(sub) => sub,
        None => {
            return Err("--sub is required".to_owned());
        },
    };
    if sub.as_str().unicode_len() == 0 || sub.as_str().as_bytes().len() > MAX_ID_LEN {
        return Err("--sub must be between 1 and 256 bytes".to_owned());
    }
    if args.hostnames.len() == 0 {
        return Err("at least one --hostname is required".to_owned());
    }
    let ghost all = text::views(args.hostnames@);
    let mut hostnames: Vec<String> = Vec::new();
    let mut i: usize = 0;
    assert(text::views(hostnames@) =~= Seq::<Seq<char>>::empty());
    assert(all.take(0) =~= Seq::<Seq<char>>::empty());
    while i < args.hostnames.len()
        invariant
            i <= args.hostnames.len() == all.len(),
            all == text::views(args.hostnames@),
            normalized_all(all.take(i as int)) == Ok::<Seq<Seq<char>>, Seq<char>>(
                text::views(hostnames@),
            ),
        decreases args.hostnames.len() - i,
    {
        let ghost before = text::views(hostnames@);
        assert(all.take(i + 1).drop_last() =~= all.take(i as int));
        assert(all.take(i + 1).last() == args.hostnames@[i as int]@);
        match normalize_hostname(args.hostnames[i].as_str()) {
            Ok(name) => {
                let ghost n = name@;
                hostnames.push(name);
                assert(text::views(hostnames@) =~= before.push(n));
            },
            Err(e) => {
                proof {
                    lemma_fault_stays(all, i + 1);
                }
                let mut detail: String = "invalid --hostname ".to_owned();
                detail.append(quote(args.hostnames[i].as_str()).as_str());
                detail.append(": ");
                detail.append(e.text.as_str());
                return Err(detail);
            },
        }
        i += 1;
    }
    assert(all.take(i as int) =~= all);
    Ok(TunnelClaims { sub: sub.clone(), hostnames, exp: now + args.exp_hours * 3600, iat: now })
}

proof fn lemma_fault_stays(names: Seq<Seq<char>>, n: int)
    requires
        0 <= n <= names.len(),
        normalized_all(names.take(n)) is Err,
    ensures
        normalized_all(names) == normalized_all(names.take(n)),
    decreases names.len(),
{
    if n < names.len() {
        assert(names.drop_last().take(n) =~= names.take(n));
        lemma_fault_stays(names.drop_last(), n);
    } else {
        assert(names.take(n) =~= names);
    }
}

/// Issues a token. It decodes, with the same secret, to the claims that were asked
/// for.
pub fn issue_token(args: &TokenArgs, secret: Option<&str>, now: u64) -> (r: Result<String, String>)
    requires
        now + args.exp_hours * 3600 <= u64::MAX,
    ensures
        match claims_of(args@, secret is Some, now) {
            Err(e) => r is Err && r->Err_0@ == e,
            Ok(claims) => r is Ok && auth::unexpired(r->Ok_0@, encode_utf8(secret->0@)) == Ok::<
                ClaimsView,
                ErrorView,
            >(claims),
        },
{
    let claims: TunnelClaims = match token_claims(args, secret.is_some(), now) {
        Ok(claims) => claims,
        Err(e) => {
            return Err(e);
        },
    };
    match secret {
        None => Err("--secret is required".to_owned()),
        Some(secret) => match sign_jwt(&claims, secret.as_bytes()) {
            Ok(token) => Ok(token),
            Err(e) => Err(e.message()),
        },
    }
}

proof fn lemma_args_prefix(words: Seq<Seq<char>>, more: Seq<Seq<char>>, from: int, args: TokenArgsView)
    requires
        0 <= from <= words.len(),
        args_from(words, from, args) is Ok,
    ensures
        args_from(words + more, from, args) == args_from(
            words + more,
            words.len() as int,
            args_from(words, from, args)->Ok_0,
        ),
    decreases words.len() - from,
{
    let all = words + more;
    if from < words.len() {
        assert(all[from] == words[from] && all[from + 1] == words[from + 1]);
        lemma_args_prefix(words, more, from + 2, with_flag(args, words[from], words[from + 1])->Ok_0);
    }
}

/// A flag with its value after words that are accepted changes what it is for and
/// nothing else: `--hostname` adds a hostname at the end, every other flag sets its own
/// value in place of the one before.
pub proof fn law_each_flag_sets_its_own_value(
    words: Vec<String>,
    more: Vec<String>,
    before: Result<TokenArgs, String>,
    after: Result<TokenArgs, String>,
)
    requires
        call_ensures(parse_token_args, (&words,), before),
        call_ensures(parse_token_args, (&more,), after),
        before is Ok,
        more@.len() == words@.len() + 2,
        forall|i: int| 0 <= i < words@.len() ==> (#[trigger] more@[i])@ == words@[i]@,
    ensures
        ({
            let flag = more@[words@.len() as int]@;
            let value = more@[words@.len() as int + 1]@;
            let old_args = before->Ok_0@;
            let new_args = after->Ok_0@;
            &&& flag == "--hostname"@ ==> after is Ok && new_args == (TokenArgsView {
                hostnames: old_args.hostnames.push(value),
                ..old_args
            })
            &&& flag == "--sub"@ ==> after is Ok && new_args == (TokenArgsView {
                sub: Some(value),
                ..old_args
            })
            &&& flag == "--secret"@ ==> after is Ok && new_args == (TokenArgsView {
                secret: Some(value),
                ..old_args
            })
            &&& flag == "--secret-file"@ ==> after is Ok && new_args == (TokenArgsView {
                secret_file: Some(value),
                ..old_args
            })
            &&& forall|n: u64| flag == "--exp-hours"@ && value == #[trigger] text::decimal(n as nat)
                ==> after is Ok && new_args == (TokenArgsView { exp_hours: n, ..old_args })
            &&& after is Ok ==> {
                ||| flag == "--hostname"@
                ||| flag == "--sub"@
                ||| flag == "--secret"@
                ||| flag == "--secret-file"@
                ||| flag == "--exp-hours"@
            }
        }),
{
    let first = text::views(words@);
    let all = text::views(more@);
    let added = seq![all[first.len() as int], all[first.len() as int + 1]];
    assert(all =~= first + added);
    lemma_args_prefix(first, added, 0, default_args());
    let args = args_from(first, 0, default_args())->Ok_0;
    reveal_with_fuel(args_from, 3);
    reveal_strlit("--secret");
    reveal_strlit("--secret-file");
    reveal_strlit("--sub");
    reveal_strlit("--hostname");
    reveal_strlit("--exp-hours");
    assert("--secret"@.len() == 8 && "--secret-file"@.len() == 13 && "--sub"@.len() == 5);
    assert("--hostname"@.len() == 10 && "--exp-hours"@.len() == 11);
    assert forall|n: u64|
        all[first.len() as int] == "--exp-hours"@ && all[first.len() as int + 1]
            == #[trigger] text::decimal(n as nat) implies with_flag(
        args,
        all[first.len() as int],
        all[first.len() as int + 1],
    ) == Ok::<TokenArgsView, Seq<char>>(TokenArgsView { exp_hours: n, ..args }) by {
        text::law_digits_read_back(n as nat, 10);
        text::lemma_digits_are_digits(n as nat, 10);
        assert(text::digit_value(text::decimal(n as nat)[0], 16) is Some);
    }
}

/// Without words a token for a year is asked for, and nothing else is known of it.
pub proof fn law_nothing_is_asked_for_unsaid(words: Vec<String>, r: Result<TokenArgs, String>)
    requires
        call_ensures(parse_token_args, (&words,), r),
        words@.len() == 0,
    ensures
        r is Ok,
        r->Ok_0.secret is None,
        r->Ok_0.secret_file is None,
        r->Ok_0.sub is None,
        r->Ok_0.hostnames@.len() == 0,
        r->Ok_0.exp_hours == 365 * 24,
{
    assert(r->Ok_0@.hostnames.len() == 0);
}

proof fn lemma_normalized_all(names: Seq<Seq<char>>)
    ensures
        match normalized_all(names) {
            Ok(r) => r.len() == names.len() && forall|i: int|
                0 <= i < names.len() ==> hostname::normalized(#[trigger] names[i], false, false)
                    == Ok::<Seq<char>, Seq<char>>(r[i]),
            Err(_) => exists|i: int|
                0 <= i < names.len() && hostname::normalized(#[trigger] names[i], false, false) is Err,
        },
    decreases names.len(),
{
    if names.len() > 0 {
        let before = names.drop_last();
        lemma_normalized_all(before);
        match normalized_all(before) {
            Ok(r) => {
                assert forall|i: int| 0 <= i < before.len() implies hostname::normalized(
                    #[trigger] names[i],
                    false,
                    false,
                ) == Ok::<Seq<char>, Seq<char>>(r[i]) by {
                    assert(before[i] == names[i]);
                }
                assert(names[names.len() - 1] == names.last());
            },
            Err(_) => {
                let i = choose|i: int|
                    0 <= i < before.len() && hostname::normalized(
                        #[trigger] before[i],
                        false,
                        false,
                    ) is Err;
                assert(names[i] == before[i]);
            },
        }
    }
}

/// A token names the subject and, one for one and in order, the hostnames that it was
/// asked for, each in its normal form. It is issued now and ends as many hours later as
/// was asked for.
pub proof fn law_token_says_what_was_asked_for(
    args: TokenArgs,
    has_secret: bool,
    now: u64,
    r: Result<TunnelClaims, String>,
)
    requires
        call_ensures(token_claims, (&args, has_secret, now), r),
        now + args.exp_hours * 3600 <= u64::MAX,
    ensures
        r is Ok ==> {
            let claims = r->Ok_0;
            &&& has_secret
            &&& args.sub is Some && claims.sub@ == args.sub->0@
            &&& 0 < args.hostnames@.len() == claims.hostnames@.len()
            &&& forall|i: int, name: Result<String, hostname::HostnameError>, given: &str|
                #![trigger args.hostnames@[i], call_ensures(normalize_hostname, (given,), name)]
                0 <= i < args.hostnames@.len() && given@ == args.hostnames@[i]@ && call_ensures(
                    normalize_hostname,
                    (given,),
                    name,
                ) ==> name is Ok && claims.hostnames@[i]@ == name->Ok_0@
            &&& claims.iat == now
            &&& claims.exp == now + args.exp_hours * 3600
        },
        r is Err ==> {
            ||| !has_secret
            ||| args.sub is None
            ||| args.sub->0@.len() == 0
            ||| encode_utf8(args.sub->0@).len() > 256
            ||| args.hostnames@.len() == 0
            ||| exists|i: int|
                0 <= i < args.hostnames@.len() && hostname::normalized(
                    (#[trigger] args.hostnames@[i])@,
                    false,
                    false,
                ) is Err
        },
{
    let names = text::views(args.hostnames@);
    lemma_normalized_all(names);
    if r is Ok {
        let given = text::views(r->Ok_0.hostnames@);
        assert(given.len() == r->Ok_0.hostnames@.len());
        assert forall|i: int, name: Result<String, hostname::HostnameError>, one: &str|
            #![trigger args.hostnames@[i], call_ensures(normalize_hostname, (one,), name)]
            0 <= i < args.hostnames@.len() && one@ == args.hostnames@[i]@ && call_ensures(
                normalize_hostname,
                (one,),
                name,
            ) implies name is Ok && r->Ok_0.hostnames@[i]@ == name->Ok_0@ by {
            assert(names[i] == one@);
            assert(given[i] == r->Ok_0.hostnames@[i]@);
        }
    } else if has_secret && args.sub is Some && 0 < args.sub->0@.len() && encode_utf8(
        args.sub->0@,
    ).len() <= 256 && args.hostnames@.len() > 0 {
        let i = choose|i: int|
            0 <= i < names.len() && hostname::normalized(#[trigger] names[i], false, false) is Err;
        assert(names[i] == args.hostnames@[i]@);
        assert(hostname::normalized(args.hostnames@[i]@, false, false) is Err);
    }
}

/// A token is issued where and only where there are claims for it, and verifies, with
/// the secret that signed it and before its expiry, to these claims.
pub proof fn law_issued_token_verifies(
    args: TokenArgs,
    secret: &str,
    now: u64,
    claims: Result<TunnelClaims, String>,
    r: Result<String, String>,
)
    requires
        call_ensures(token_claims, (&args, true, now), claims),
        call_ensures(issue_token, (&args, Some(secret), now), r),
        now + args.exp_hours * 3600 <= u64::MAX,
    ensures
        (r is Ok) == (claims is Ok),
        r is Ok ==> auth::unexpired(r->Ok_0@, encode_utf8(secret@)) == Ok::<ClaimsView, ErrorView>(
            claims->Ok_0@,
        ),
{
}

/// A secret that is given counts before a file that is named, and that before the environment.
pub proof fn law_given_secrets_count_first(args: TokenArgs, r: SecretSource)
    requires
        call_ensures(TokenArgs::secret_source, (&args,), r),
    ensures
        args.secret matches Some(s) ==> r is Given && r->Given_0@ == s@,
        args.secret is None ==> (args.secret_file matches Some(f) ==> r is File && r->File_0@
            == f@),
        args.secret is None && args.secret_file is None ==> r is Environment,
{
    assert(args@.secret == text::opt_view(args.secret));
    assert(args@.secret_file == text::opt_view(args.secret_file));
}

} // verus!
