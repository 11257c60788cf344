//! Configuration records: the command line, TLS domains, timeouts and the
//! ACME (Let's Encrypt) account, with the HTTP-01 challenge answers.
use vstd::prelude::*;

use crate::text::{chars_equal, chars_of, string_of};

verus! {

/// The format of an API description to convert.
#[derive(Debug, Clone, Copy, PartialEq, Eq)]
pub enum InputFormat {
    Openapi,
    Swagger,
}

/// The arguments of the convert command.
#[derive(Debug, Clone)]
pub struct ConvertArgs {
    pub input_file: String,
    pub output_file: Option<String>,
    pub format: InputFormat,
}

/// The sub-commands of the gateway.
#[derive(Debug, Clone)]
pub enum Commands {
    Convert(ConvertArgs),
}

/// The command line of the gateway: the configuration file and an optional sub-command.
#[derive(Debug, Clone)]
pub struct Cli {
    pub config_path: String,
    pub command: Option<Commands>,
}

/// A domain served over TLS.
#[derive(Debug, Clone, PartialEq, Eq)]
pub struct DomainsConfig {
    pub domain_name: String,
}

/// The timeout of upstream requests.
#[derive(Debug, Clone, Copy, PartialEq, Eq)]
pub struct TimeoutConfig {
    pub request_timeout: u64,
}

impl Default for TimeoutConfig {
    fn default() -> (r: Self)
        ensures
            r.request_timeout == 0,
    {
        TimeoutConfig { request_timeout: 0 }
    }
}

/// The ACME account: a contact mail and the domain to certify.
#[derive(Debug, Clone, PartialEq, Eq)]
pub struct LetsEntrypt {
    pub mail_name: String,
    pub domain_name: String,
}

impl LetsEntrypt {
    /// An account for `domain_name` with contact `mail_name`.
    pub fn _new(mail_name: String, domain_name: String) -> (r: LetsEntrypt)
        ensures
            r.mail_name == mail_name,
            r.domain_name == domain_name,
    {
        LetsEntrypt { mail_name, domain_name }
    }
}

impl Default for LetsEntrypt {
    fn default() -> (r: Self)
        ensures
            r.mail_name@ == Seq::<char>::empty(),
            r.domain_name@ == Seq::<char>::empty(),
    {
        LetsEntrypt { mail_name: String::new(), domain_name: String::new() }
    }
}

/// The text before the first dot (all of it when there is no dot).
pub open spec fn before_dot(s: Seq<char>) -> Seq<char>
    decreases s.len(),
{
    if s.len() == 0 || s[0] == '.' {
        seq![]
    } else {
        seq![s[0]] + before_dot(s.drop_first())
    }
}

/// The token of an HTTP-01 key authorization `token.thumbprint`: the text before the first dot.
pub fn challenge_token(key_authorization: &str) -> (r: String)
    ensures
        r@ == before_dot(key_authorization@),
{
    let cs = chars_of(key_authorization);
    let mut out: Vec<char> = Vec::new();
    let mut i: usize = 0;
    assert(cs@.skip(0) =~= cs@);
    assert(out@ + before_dot(cs@) =~= before_dot(cs@));
    while i < cs.len() && cs[i] != '.'
        invariant
            i <= cs@.len(),
            cs@ == key_authorization@,
            out@ + before_dot(cs@.skip(i as int)) == before_dot(cs@),
        decreases cs@.len() - i,
    {
        assert(cs@.skip(i as int).drop_first() =~= cs@.skip(i + 1));
        out.push(cs[i]);
        assert(out@ + before_dot(cs@.skip(i + 1)) =~= before_dot(cs@));
        i = i + 1;
    }
    proof {
        if i < cs@.len() {
            assert(cs@.skip(i as int)[0] == '.');
        }
        assert(before_dot(cs@.skip(i as int)) =~= Seq::<char>::empty());
        assert(out@ =~= before_dot(cs@));
    }
    string_of(out.as_slice())
}

/// The answer stored for `token`: the first (token, key authorization) pair with that token.
pub open spec fn answer_for(challenges: Seq<(String, String)>, token: Seq<char>) -> Option<Seq<char>>
    decreases challenges.len(),
{
    if challenges.len() == 0 {
        None
    } else if challenges[0].0@ == token {
        Some(challenges[0].1@)
    } else {
        answer_for(challenges.drop_first(), token)
    }
}

/// The answer to an HTTP-01 challenge request for `token`: the key authorization
/// stored for it, or status 404 when there is none.
pub fn http01_challenge(challenges: &Vec<(String, String)>, token: &str) -> (r: Result<String, u16>)
    ensures
        match answer_for(challenges@, token@) {
            Some(a) => r matches Ok(s) && s@ == a,
            None => r == Err::<String, u16>(404),
        },
{
    let tc = chars_of(token);
    let mut i: usize = 0;
    assert(challenges@.skip(0) =~= challenges@);
    while i < challenges.len()
        invariant
            i <= challenges@.len(),
            tc@ == token@,
            answer_for(challenges@, token@) == answer_for(challenges@.skip(i as int), token@),
        decreases challenges@.len() - i,
    {
        let c = chars_of(challenges[i].0.as_str());
        assert(challenges@.skip(i as int)[0] == challenges@[i as int]);
        if chars_equal(c.as_slice(), tc.as_slice()) {
            return Ok(challenges[i].1.clone());
        }
        assert(challenges@.skip(i as int).drop_first() =~= challenges@.skip(i + 1));
        i = i + 1;
    }
    Err(404)
}

} // verus!
