//! The policy for requests from other origins.

use crate::text::{concat, texts};
use vstd::prelude::*;

verus! {

/// What the server allows to requests from other origins.
pub struct CorsPolicy {
    /// The origins that may call.
    pub origins: Vec<String>,
    /// The methods they may use.
    pub methods: Vec<String>,
    /// The headers they may send.
    pub headers: Vec<String>,
    /// Seconds for which a browser may remember the answer.
    pub max_age: usize,
}

/// The origins that are allowed whatever the configuration.
pub open spec fn local_origins() -> Seq<Seq<char>> {
    seq!["http://localhost.com"@, "https://localhost.com"@]
}

/// Every origin with `/*` added.
pub open spec fn wildcards(origins: Seq<Seq<char>>) -> Seq<Seq<char>> {
    Seq::new(origins.len(), |i: int| origins[i] + "/*"@)
}

/// The allowed origins: the local ones and the configured websites, and
/// after them the same again, each with `/*` added.
pub open spec fn allowed_origins(websites: Seq<Seq<char>>) -> Seq<Seq<char>> {
    local_origins() + websites + wildcards(local_origins() + websites)
}

/// The allowed methods.
pub open spec fn allowed_methods() -> Seq<Seq<char>> {
    seq!["GET"@, "POST"@]
}

/// The allowed headers.
pub open spec fn allowed_headers() -> Seq<Seq<char>> {
    seq!["authorization"@, "accept"@, "content-type"@, "secure-flag"@]
}

/// The policy for requests from other origins, given the configured
/// websites.
pub fn get_cors(websites: Vec<String>) -> (policy: CorsPolicy)
    ensures
        texts(policy.origins@) == allowed_origins(texts(websites@)),
        texts(policy.methods@) == allowed_methods(),
        texts(policy.headers@) == allowed_headers(),
        policy.max_age == 3600,
{
    let mut origins: Vec<String> = Vec::new();
    origins.push("http://localhost.com".to_owned());
    origins.push("https://localhost.com".to_owned());
    assert(texts(origins@) =~= local_origins());
    let mut i: usize = 0;
    while i < websites.len()
        invariant
            i <= websites.len(),
            texts(origins@) == local_origins() + texts(websites@).take(i as int),
        decreases websites.len() - i,
    {
        let ghost before = texts(origins@);
        origins.push(websites[i].clone());
        assert(texts(origins@) =~= before.push(websites@[i as int]@));
        assert(texts(websites@).take(i + 1) =~= texts(websites@).take(i as int).push(
            websites@[i as int]@,
        ));
        i += 1;
    }
    assert(texts(websites@).take(websites.len() as int) =~= texts(websites@));
    let ghost plain = texts(origins@);
    let count = origins.len();
    let mut k: usize = 0;
    while k < count
        invariant
            k <= count,
            count == plain.len(),
            origins.len() == count + k,
            texts(origins@) == plain + wildcards(plain).take(k as int),
        decreases count - k,
    {
        let ghost before = texts(origins@);
        assert(before[k as int] == plain[k as int]);
        let wide = concat(origins[k].as_str(), "/*");
        origins.push(wide);
        assert(texts(origins@) =~= before.push(plain[k as int] + "/*"@));
        assert(wildcards(plain).take(k + 1) =~= wildcards(plain).take(k as int).push(
            plain[k as int] + "/*"@,
        ));
        k += 1;
    }
    assert(wildcards(plain).take(count as int) =~= wildcards(plain));
    let mut methods: Vec<String> = Vec::new();
    methods.push("GET".to_owned());
    methods.push("POST".to_owned());
    assert(texts(methods@) =~= allowed_methods());
    let mut headers: Vec<String> = Vec::new();
    headers.push("authorization".to_owned());
    headers.push("accept".to_owned());
    headers.push("content-type".to_owned());
    headers.push("secure-flag".to_owned());
    assert(texts(headers@) =~= allowed_headers());
    CorsPolicy { origins, methods, headers, max_age: 3600 }
}

} // verus!
