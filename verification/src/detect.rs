//! Public-URL detection in provider log output. The stock provider
//! announces a URL of the form `http(s)://<host>.trycloudflare.com`
//! somewhere in one of its log lines; [`find_tunnel_url`] extracts the
//! first such URL from a line, preferring the longest form at the first
//! place one starts. Alongside it live the single-assignment slot that
//! the two stream readers race for, and the verdict rule for the bounded
//! wait with its fixed deadline.

use vstd::prelude::*;
use vstd::string::*;

verus! {

/// How long a freshly spawned provider process is given to announce its
/// public URL, measured from the spawn, in milliseconds.
pub const URL_WAIT_DEADLINE_MS: u64 = 20000;

/// How long the waiting thread sleeps between looks at the URL slot, in
/// milliseconds.
pub const URL_POLL_INTERVAL_MS: u64 = 80;

/// A character allowed in the host part of an announced URL: an ASCII
/// letter, a digit, a dot or a hyphen.
pub open spec fn is_host_char(c: char) -> bool {
    let u = c as u32;
    (65 <= u && u <= 90) || (97 <= u && u <= 122) || (48 <= u && u <= 57) || u == 46 || u == 45
}

/// `http://` stands at index `i` of `s`.
pub open spec fn http_at(s: Seq<char>, i: int) -> bool {
    &&& 0 <= i
    &&& i + 7 <= s.len()
    &&& s[i] == 'h'
    &&& s[i + 1] == 't'
    &&& s[i + 2] == 't'
    &&& s[i + 3] == 'p'
    &&& s[i + 4] == ':'
    &&& s[i + 5] == '/'
    &&& s[i + 6] == '/'
}

/// `https://` stands at index `i` of `s`.
pub open spec fn https_at(s: Seq<char>, i: int) -> bool {
    &&& 0 <= i
    &&& i + 8 <= s.len()
    &&& s[i] == 'h'
    &&& s[i + 1] == 't'
    &&& s[i + 2] == 't'
    &&& s[i + 3] == 'p'
    &&& s[i + 4] == 's'
    &&& s[i + 5] == ':'
    &&& s[i + 6] == '/'
    &&& s[i + 7] == '/'
}

/// `.trycloudflare.com` ends at index `j` (exclusive) of `s`.
pub open spec fn domain_ending_at(s: Seq<char>, j: int) -> bool {
    &&& 18 <= j <= s.len()
    &&& s[j - 18] == '.'
    &&& s[j - 17] == 't'
    &&& s[j - 16] == 'r'
    &&& s[j - 15] == 'y'
    &&& s[j - 14] == 'c'
    &&& s[j - 13] == 'l'
    &&& s[j - 12] == 'o'
    &&& s[j - 11] == 'u'
    &&& s[j - 10] == 'd'
    &&& s[j - 9] == 'f'
    &&& s[j - 8] == 'l'
    &&& s[j - 7] == 'a'
    &&& s[j - 6] == 'r'
    &&& s[j - 5] == 'e'
    &&& s[j - 4] == '.'
    &&& s[j - 3] == 'c'
    &&& s[j - 2] == 'o'
    &&& s[j - 1] == 'm'
}

/// A nonempty run of host characters starts at index `b` and runs to
/// `j` (exclusive), ending in the provider's wildcard domain. The run is
/// at least one character longer than the domain suffix itself.
pub open spec fn body_ok(s: Seq<char>, b: int, j: int) -> bool {
    &&& b + 19 <= j <= s.len()
    &&& (forall|m: int| b <= m < j ==> is_host_char(#[trigger] s[m]))
    &&& domain_ending_at(s, j)
}

/// The half-open range `[i, j)` of `s` is one announced tunnel URL: a
/// scheme, then a host-character run ending in the wildcard domain.
pub open spec fn match_at(s: Seq<char>, i: int, j: int) -> bool {
    ||| (http_at(s, i) && body_ok(s, i + 7, j))
    ||| (https_at(s, i) && body_ok(s, i + 8, j))
}

/// `s` is, as a whole, one announced tunnel URL.
pub open spec fn is_tunnel_url(s: Seq<char>) -> bool {
    match_at(s, 0, s.len() as int)
}

/// `s` contains an announced tunnel URL.
pub open spec fn has_tunnel_url(s: Seq<char>) -> bool {
    exists|i: int, j: int| match_at(s, i, j)
}

/// A match within `s` is a tunnel URL on its own, and the other way
/// round.
pub proof fn lemma_match_is_url(s: Seq<char>, i: int, j: int)
    requires
        0 <= i <= j <= s.len(),
    ensures
        match_at(s, i, j) == is_tunnel_url(s.subrange(i, j)),
{
    let u = s.subrange(i, j);
    assert(forall|m: int| 0 <= m < u.len() ==> u[m] == s[i + m]);
    if match_at(s, i, j) {
        if http_at(s, i) && body_ok(s, i + 7, j) {
            assert(http_at(u, 0));
            assert(forall|m: int| 7 <= m < u.len() ==> is_host_char(#[trigger] u[m]));
            assert(body_ok(u, 7, u.len() as int));
        } else {
            assert(https_at(u, 0));
            assert(forall|m: int| 8 <= m < u.len() ==> is_host_char(#[trigger] u[m]));
            assert(body_ok(u, 8, u.len() as int));
        }
    }
    if is_tunnel_url(u) {
        if http_at(u, 0) && body_ok(u, 7, u.len() as int) {
            assert(http_at(s, i));
            assert forall|m: int| i + 7 <= m < j implies is_host_char(#[trigger] s[m]) by {
                assert(u[m - i] == s[m]);
                assert(is_host_char(u[m - i]));
            }
            assert(body_ok(s, i + 7, j));
        } else {
            assert(https_at(s, i));
            assert forall|m: int| i + 8 <= m < j implies is_host_char(#[trigger] s[m]) by {
                assert(u[m - i] == s[m]);
                assert(is_host_char(u[m - i]));
            }
            assert(body_ok(s, i + 8, j));
        }
    }
}

/// Whether `c` may appear in the host part of an announced URL.
fn is_host(c: char) -> (r: bool)
    ensures
        r == is_host_char(c),
{
    let u = c as u32;
    (65 <= u && u <= 90) || (97 <= u && u <= 122) || (48 <= u && u <= 57) || u == 46 || u == 45
}

/// The length of the URL scheme standing at character `i` of `line`, if
/// one does.
fn scheme_at(line: &str, i: usize, n: usize) -> (r: Option<usize>)
    requires
        n == line@.len(),
        i < n,
    ensures
        r matches Some(k) ==> (k == 8 && https_at(line@, i as int))
            || (k == 7 && http_at(line@, i as int)),
        r is None ==> !http_at(line@, i as int) && !https_at(line@, i as int),
{
    if n - i >= 8 && line.get_char(i) == 'h' && line.get_char(i + 1) == 't'
        && line.get_char(i + 2) == 't' && line.get_char(i + 3) == 'p'
        && line.get_char(i + 4) == 's' && line.get_char(i + 5) == ':'
        && line.get_char(i + 6) == '/' && line.get_char(i + 7) == '/' {
        Some(8)
    } else if n - i >= 7 && line.get_char(i) == 'h' && line.get_char(i + 1) == 't'
        && line.get_char(i + 2) == 't' && line.get_char(i + 3) == 'p'
        && line.get_char(i + 4) == ':' && line.get_char(i + 5) == '/'
        && line.get_char(i + 6) == '/' {
        Some(7)
    } else {
        None
    }
}

/// Whether the wildcard domain ends at character `j` (exclusive) of
/// `line`.
fn domain_at(line: &str, j: usize, n: usize) -> (r: bool)
    requires
        n == line@.len(),
        j <= n,
    ensures
        r == domain_ending_at(line@, j as int),
{
    j >= 18 && line.get_char(j - 18) == '.' && line.get_char(j - 17) == 't'
        && line.get_char(j - 16) == 'r' && line.get_char(j - 15) == 'y'
        && line.get_char(j - 14) == 'c' && line.get_char(j - 13) == 'l'
        && line.get_char(j - 12) == 'o' && line.get_char(j - 11) == 'u'
        && line.get_char(j - 10) == 'd' && line.get_char(j - 9) == 'f'
        && line.get_char(j - 8) == 'l' && line.get_char(j - 7) == 'a'
        && line.get_char(j - 6) == 'r' && line.get_char(j - 5) == 'e'
        && line.get_char(j - 4) == '.' && line.get_char(j - 3) == 'c'
        && line.get_char(j - 2) == 'o' && line.get_char(j - 1) == 'm'
}

/// Extract the announced tunnel URL from one log line, if the line holds
/// one: the match starting at the first place any match starts, extended
/// as far as a match reaches from there.
pub fn find_tunnel_url(line: &str) -> (r: Option<String>)
    ensures
        r is None <==> !has_tunnel_url(line@),
        r matches Some(u) ==> exists|i: int, j: int|
            {
                &&& #[trigger] match_at(line@, i, j)
                &&& u@ == line@.subrange(i, j)
                &&& is_tunnel_url(u@)
                &&& (forall|i2: int, j2: int| match_at(line@, i2, j2) ==> i <= i2)
                &&& (forall|j2: int| match_at(line@, i, j2) ==> j2 <= j)
            },
{
    let n = line.unicode_len();
    let mut i: usize = 0;
    while i < n
        invariant
            n == line@.len(),
            i <= n,
            forall|i2: int, j2: int| 0 <= i2 < i ==> !match_at(line@, i2, j2),
        decreases n - i,
    {
        if let Some(k) = scheme_at(line, i, n) {
            let b = i + k;
            // the maximal host-character run starting at the body
            let mut e: usize = b;
            while e < n && is_host(line.get_char(e))
                invariant
                    n == line@.len(),
                    b <= e <= n,
                    forall|m: int| b <= m < e ==> is_host_char(#[trigger] line@[m]),
                decreases n - e,
            {
                e += 1;
            }
            assert(e == n || !is_host_char(line@[e as int]));
            // the farthest domain ending within the run, if any
            let mut j: usize = e;
            let mut found: bool = false;
            while !found && j - b >= 19
                invariant
                    n == line@.len(),
                    b <= j <= e <= n,
                    found ==> j - b >= 19 && domain_ending_at(line@, j as int),
                    forall|j2: int| j < j2 <= e ==> !domain_ending_at(line@, j2),
                decreases (if found { 0int } else { j - b + 1 }),
            {
                if domain_at(line, j, n) {
                    found = true;
                } else {
                    j -= 1;
                }
            }
            if found {
                let ghost ii = i as int;
                let ghost jj = j as int;
                proof {
                    assert(body_ok(line@, b as int, jj));
                    assert(match_at(line@, ii, jj));
                    assert forall|j2: int| match_at(line@, ii, j2) implies j2 <= jj by {
                        assert(body_ok(line@, b as int, j2)) by {
                            if http_at(line@, ii) && https_at(line@, ii) {
                                assert(line@[ii + 4] == ':' && line@[ii + 4] == 's');
                            }
                        }
                        if j2 > e {
                            assert(is_host_char(line@[e as int]));
                        }
                    }
                    lemma_match_is_url(line@, ii, jj);
                }
                let m = line.substring_char(i, j);
                return Some(m.to_owned());
            }
            // no match starts here: any would need a domain ending in the
            // run, at least 19 characters past the scheme
            proof {
                assert forall|j2: int| !match_at(line@, i as int, j2) by {
                    if match_at(line@, i as int, j2) {
                        assert(body_ok(line@, b as int, j2)) by {
                            if http_at(line@, i as int) && https_at(line@, i as int) {
                                assert(line@[i as int + 4] == ':'
                                    && line@[i as int + 4] == 's');
                            }
                        }
                        if j2 > e {
                            assert(is_host_char(line@[e as int]));
                        }
                        assert(j2 <= j);
                        assert(j2 - b >= 19);
                    }
                }
            }
        }
        i += 1;
    }
    proof {
        assert forall|i2: int, j2: int| !match_at(line@, i2, j2) by {
            if match_at(line@, i2, j2) {
                assert(i2 + 7 <= n);
            }
        }
    }
    None
}

/// Only web URLs may be handed to the OS to open: the string must start
/// with one of the two schemes the announced URLs use.
pub fn url_scheme_allowed(url: &str) -> (r: bool)
    ensures
        r == (http_at(url@, 0) || https_at(url@, 0)),
{
    let n = url.unicode_len();
    if n == 0 {
        return false;
    }
    scheme_at(url, 0, n).is_some()
}

/// Install `candidate` in the single-assignment URL slot the stream
/// readers race for: the first writer wins and later offers are ignored.
/// Returns whether this offer won.
pub fn claim_url_slot(slot: &mut Option<String>, candidate: String) -> (r: bool)
    ensures
        (*old(slot)) is None ==> *final(slot) == Some(candidate) && r,
        (*old(slot)) is Some ==> *final(slot) == *old(slot) && !r,
{
    if slot.is_none() {
        *slot = Some(candidate);
        true
    } else {
        false
    }
}

/// What the waiting thread does after one look at the URL slot.
pub enum WaitVerdict {
    /// A reader announced this URL: the start succeeds now.
    Found(String),
    /// The deadline has passed with no URL: kill and reap the process,
    /// then report `UrlTimeout`.
    TimedOut,
    /// No URL yet, deadline not reached: sleep one poll interval and look
    /// again.
    KeepWaiting,
}

/// Decide what one look at the URL slot means, `elapsed_ms` after the
/// spawn: a found URL wins, then the deadline is enforced, otherwise the
/// wait goes on.
pub fn judge_url_wait(slot: Option<String>, elapsed_ms: u64) -> (r: WaitVerdict)
    ensures
        slot matches Some(u) ==> (r matches WaitVerdict::Found(v) && v == u),
        slot is None && elapsed_ms > URL_WAIT_DEADLINE_MS ==> r is TimedOut,
        slot is None && elapsed_ms <= URL_WAIT_DEADLINE_MS ==> r is KeepWaiting,
{
    match slot {
        Some(u) => WaitVerdict::Found(u),
        None => {
            if elapsed_ms > URL_WAIT_DEADLINE_MS {
                WaitVerdict::TimedOut
            } else {
                WaitVerdict::KeepWaiting
            }
        },
    }
}

} // verus!
