//! The registry rules that need no network: where a package's metadata
//! lives, and how long to wait before each retry.

use vstd::prelude::*;

verus! {

/// The registry address without trailing slashes.
pub open spec fn without_trailing_slashes(s: Seq<char>) -> Seq<char>
    decreases s.len(),
{
    if s.len() > 0 && s.last() == '/' {
        without_trailing_slashes(s.drop_last())
    } else {
        s
    }
}

/// Removes the trailing slashes of a registry address.
pub fn registry_base(url: &str) -> (r: &str)
    ensures
        r@ == without_trailing_slashes(url@),
{
    let mut n = url.unicode_len();
    assert(url@.take(n as int) =~= url@);
    while n > 0 && url.get_char(n - 1) == '/'
        invariant
            n <= url@.len(),
            without_trailing_slashes(url@) == without_trailing_slashes(url@.take(n as int)),
        decreases n,
    {
        assert(url@.take(n as int).drop_last() =~= url@.take(n - 1));
        n = n - 1;
    }
    let r = url.substring_char(0, n);
    assert(r@ =~= url@.take(n as int));
    r
}

/// The text with its first `/` written as `%2f`.
pub open spec fn first_slash_encoded(s: Seq<char>) -> Seq<char>
    decreases s.len(),
{
    if s.len() == 0 {
        s
    } else if s[0] == '/' {
        seq!['%', '2', 'f'] + s.skip(1)
    } else {
        seq![s[0]] + first_slash_encoded(s.skip(1))
    }
}

/// A package name as it stands in a registry path: a scoped name
/// (`@scope/name`) has its slash percent-encoded, any other is unchanged.
pub open spec fn encoded_name(name: Seq<char>) -> Seq<char> {
    if name.len() > 0 && name[0] == '@' {
        first_slash_encoded(name)
    } else {
        name
    }
}

/// Where the metadata of `name` lives under the registry address `base`.
pub open spec fn package_url_spec(base: Seq<char>, name: Seq<char>) -> Seq<char> {
    base + seq!['/'] + encoded_name(name)
}

/// The address of a package's metadata document.
pub fn package_url(base: &str, name: &str) -> (r: String)
    ensures
        r@ == package_url_spec(base@, name@),
{
    proof {
        reveal_strlit("/");
        reveal_strlit("%2f");
    }
    let mut out = String::from_str(base);
    out.append("/");
    assert("/"@ =~= seq!['/']);
    let len = name.unicode_len();
    if len == 0 || name.get_char(0) != '@' {
        out.append(name);
        return out;
    }
    let ghost start = out@;
    let mut i: usize = 0;
    assert(name@.skip(0) =~= name@);
    while i < len
        invariant
            len == name@.len(),
            i <= len,
            "%2f"@ == seq!['%', '2', 'f'],
            name@.len() > 0 && name@[0] == '@',
            start == base@ + seq!['/'],
            start + first_slash_encoded(name@) == out@ + first_slash_encoded(name@.skip(i as int)),
        decreases len - i,
    {
        let c = name.get_char(i);
        let ghost rest = name@.skip(i as int);
        assert(rest[0] == c);
        if c == '/' {
            let tail = name.substring_char(i + 1, len);
            assert(tail@ =~= rest.skip(1));
            let ghost before = out@;
            out.append("%2f");
            out.append(tail);
            assert(out@ =~= before + first_slash_encoded(rest));
            assert(start + first_slash_encoded(name@) =~= out@);
            assert(start + first_slash_encoded(name@) == start + encoded_name(name@));
            return out;
        }
        let one = name.substring_char(i, i + 1);
        assert(one@ =~= seq![c]);
        assert(rest.skip(1) =~= name@.skip(i + 1));
        let ghost before = out@;
        out.append(one);
        assert(before + first_slash_encoded(rest) =~= out@ + first_slash_encoded(name@.skip(i + 1)));
        i = i + 1;
    }
    assert(name@.skip(len as int) =~= Seq::<char>::empty());
    assert(out@ =~= start + first_slash_encoded(name@));
    out
}

pub open spec fn pow2(n: nat) -> nat
    decreases n,
{
    if n == 0 {
        1
    } else {
        2 * pow2((n - 1) as nat)
    }
}

/// The wait before retry number `attempt` (from 1): 100 ms, doubling with
/// each further retry, held at `u64::MAX`.
pub open spec fn backoff_spec(attempt: nat) -> int {
    let d = 100 * pow2((attempt - 1) as nat);
    if d > u64::MAX {
        u64::MAX as int
    } else {
        d as int
    }
}

proof fn lemma_pow2_grows(n: nat)
    ensures
        pow2(n) >= 1,
    decreases n,
{
    if n > 0 {
        lemma_pow2_grows((n - 1) as nat);
    }
}

/// The wait, in milliseconds, before retry number `attempt` (from 1).
pub fn backoff_delay_ms(attempt: u32) -> (r: u64)
    requires
        attempt >= 1,
    ensures
        r as int == backoff_spec(attempt as nat),
{
    let mut d: u64 = 100;
    let mut k: u32 = 1;
    while k < attempt
        invariant
            1 <= k <= attempt,
            d as int == backoff_spec(k as nat),
        decreases attempt - k,
    {
        proof {
            lemma_pow2_grows((k - 1) as nat);
            assert(pow2(k as nat) == 2 * pow2((k - 1) as nat));
        }
        if d > u64::MAX / 2 {
            d = u64::MAX;
        } else {
            d = d * 2;
        }
        k = k + 1;
    }
    d
}

/// After attempt number `done` (from 0) failed: the wait before the next
/// attempt, or `None` once `retries` retries have been spent.
pub fn next_retry_delay(done: u32, retries: u32) -> (r: Option<u64>)
    ensures
        done < retries ==> (r matches Some(d) && d as int == backoff_spec(done as nat + 1)),
        done >= retries ==> r is None,
{
    if done < retries {
        Some(backoff_delay_ms(done + 1))
    } else {
        None
    }
}

} // verus!
