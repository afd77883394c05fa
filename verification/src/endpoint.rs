//! Where Ollama listens, and which addresses may be used unasked.

use vstd::prelude::*;
use vstd::slice::slice_subrange;

use crate::error::{ErrorView, ResolverError};
use crate::sanitize;
use crate::text;
use crate::types;

verus! {

/// The part of a full URL after its scheme; `None` for a bare host.
pub open spec fn after_scheme(host: Seq<char>) -> Option<Seq<char>> {
    let lower = text::lower(host);
    if text::has_prefix(lower, "http://"@) {
        Some(host.skip("http://"@.len() as int))
    } else if text::has_prefix(lower, "https://"@) {
        Some(host.skip("https://"@.len() as int))
    } else {
        None
    }
}

/// The characters before the first of `stops`.
pub open spec fn before_any(s: Seq<char>, stops: Seq<char>) -> Seq<char> {
    text::split(s, stops)[0]
}

/// The text after the part before the first of `stops`.
pub open spec fn rest_after(s: Seq<char>, stops: Seq<char>) -> Seq<char> {
    s.skip(before_any(s, stops).len() as int)
}

/// A colon and one or more digits.
pub open spec fn is_port_suffix(s: Seq<char>) -> bool {
    s.len() > 1 && s[0] == ':' && text::all_digits(s.skip(1))
}

/// The host names of this machine that need no permission.
pub open spec fn is_local_name(name: Seq<char>) -> bool {
    let lower = text::lower(name);
    lower == "127.0.0.1"@ || lower == "localhost"@ || lower == "::1"@ || lower == "[::1]"@
}

/// The authority of a URL names this machine, with or without a port.
pub open spec fn is_local_authority(authority: Seq<char>) -> bool {
    if text::has_prefix(authority, "[::1]"@) {
        let rest = authority.skip("[::1]"@.len() as int);
        rest.len() == 0 || is_port_suffix(rest)
    } else {
        let name = before_any(authority, ":"@);
        let rest = rest_after(authority, ":"@);
        (text::lower(name) == "127.0.0.1"@ || text::lower(name) == "localhost"@) && (rest.len() == 0
            || is_port_suffix(rest))
    }
}

/// The host, or the host of the URL, is this machine.
pub open spec fn is_loopback_text(host: Seq<char>) -> bool {
    match after_scheme(host) {
        Some(rest) => is_local_authority(before_any(rest, "/?#"@)),
        None => is_local_name(host),
    }
}

fn scheme_len(host: &[char]) -> (r: usize)
    ensures
        r <= host@.len(),
        match after_scheme(host@) {
            Some(rest) => r > 0 && rest == host@.skip(r as int),
            None => r == 0,
        },
{
    let lower = text::to_lower(host);
    let http = text::chars_of("http://");
    let https = text::chars_of("https://");
    proof {
        reveal_strlit("http://");
        reveal_strlit("https://");
    }
    if text::starts_with(lower.as_slice(), http.as_slice()) {
        http.len()
    } else if text::starts_with(lower.as_slice(), https.as_slice()) {
        https.len()
    } else {
        0
    }
}

fn head_before(s: &[char], stops: &str) -> (r: Vec<char>)
    ensures
        r@ == before_any(s@, stops@),
{
    let seps = text::chars_of(stops);
    let pieces = text::split_chars(s, seps.as_slice());
    proof {
        text::lemma_split_nonempty(s@, stops@);
        assert(text::buffers(pieces@).len() == pieces@.len());
        assert(text::buffers(pieces@)[0] == pieces@[0]@);
    }
    text::copy_chars(pieces[0].as_slice())
}

proof fn lemma_first_piece_is_short(s: Seq<char>, stops: Seq<char>)
    ensures
        before_any(s, stops).len() <= s.len(),
    decreases s.len(),
{
    if s.len() > 0 {
        lemma_first_piece_is_short(s.drop_last(), stops);
        text::lemma_split_nonempty(s.drop_last(), stops);
    }
}

fn has_port_form(s: &[char]) -> (r: bool)
    ensures
        r == is_port_suffix(s@),
{
    if s.len() <= 1 || s[0] != ':' {
        return false;
    }
    let digits = slice_subrange(s, 1, s.len());
    assert(digits@ =~= s@.skip(1));
    for i in 0..digits.len()
        invariant
            digits@ == s@.skip(1),
            forall|j: int| 0 <= j < i ==> text::is_digit(digits@[j]),
    {
        if !text::digit(digits[i]) {
            assert(!text::is_digit(digits@[i as int]));
            return false;
        }
    }
    true
}

fn same_as(s: &[char], word: &str) -> (r: bool)
    ensures
        r == (s@ == word@),
{
    text::same_chars(s, text::chars_of(word).as_slice())
}

fn local_authority(authority: &[char]) -> (r: bool)
    ensures
        r == is_local_authority(authority@),
{
    let bracketed = text::chars_of("[::1]");
    if text::starts_with(authority, bracketed.as_slice()) {
        let rest = slice_subrange(authority, bracketed.len(), authority.len());
        assert(rest@ =~= authority@.skip("[::1]"@.len() as int));
        return rest.len() == 0 || has_port_form(rest);
    }
    let name = head_before(authority, ":");
    proof {
        lemma_first_piece_is_short(authority@, ":"@);
    }
    let rest = slice_subrange(authority, name.len(), authority.len());
    assert(rest@ =~= rest_after(authority@, ":"@));
    let lower = text::to_lower(name.as_slice());
    (same_as(lower.as_slice(), "127.0.0.1") || same_as(lower.as_slice(), "localhost")) && (
    rest.len() == 0 || has_port_form(rest))
}

/// Whether a host or URL stands for this machine.
pub fn is_loopback(host: &str) -> (r: bool)
    ensures
        r == is_loopback_text(host@),
{
    let chars = text::chars_of(host);
    let skip: usize = scheme_len(chars.as_slice());
    if skip > 0 {
        let rest = slice_subrange(chars.as_slice(), skip, chars.len());
        assert(rest@ =~= host@.skip(skip as int));
        let authority = head_before(rest, "/?#");
        local_authority(authority.as_slice())
    } else {
        let lower = text::to_lower(chars.as_slice());
        same_as(lower.as_slice(), "127.0.0.1") || same_as(lower.as_slice(), "localhost") || same_as(
            lower.as_slice(),
            "::1",
        ) || same_as(lower.as_slice(), "[::1]")
    }
}

/// A host that is not this machine needs permission.
pub open spec fn host_fault(host: Seq<char>, allow_remote: bool) -> Option<Seq<char>> {
    if allow_remote || is_loopback_text(host) {
        None
    } else {
        Some(
            "--ollama-host '"@ + sanitize::line(host)
                + "' is not a loopback address; pass --allow-remote-ollama to use it"@,
        )
    }
}

/// Refuses a host that is not this machine unless that is allowed.
pub fn validate_ollama_host(host: &str, allow_remote: bool) -> (r: Result<(), ResolverError>)
    ensures
        match host_fault(host@, allow_remote) {
            None => r is Ok,
            Some(fault) => r matches Err(e) && e@ == ErrorView::InvalidInput(fault),
        },
{
    if allow_remote || is_loopback(host) {
        Ok(())
    } else {
        Err(
            ResolverError::InvalidInput(
                "--ollama-host '".to_string().concat(sanitize::terminal_line(host).as_str()).concat(
                    "' is not a loopback address; pass --allow-remote-ollama to use it",
                ),
            ),
        )
    }
}

/// `s` without the slashes at its end.
pub open spec fn without_slashes(s: Seq<char>) -> Seq<char>
    decreases s.len(),
{
    if s.len() > 0 && s.last() == '/' {
        without_slashes(s.drop_last())
    } else {
        s
    }
}

fn strip_slashes(s: &[char]) -> (r: String)
    ensures
        r@ == without_slashes(s@),
{
    let mut n: usize = s.len();
    assert(s@.take(n as int) =~= s@);
    while n > 0 && s[n - 1] == '/'
        invariant
            n <= s@.len(),
            without_slashes(s@.take(n as int)) == without_slashes(s@),
        decreases n,
    {
        assert(s@.take(n as int).drop_last() =~= s@.take(n - 1));
        n = n - 1;
    }
    let head = slice_subrange(s, 0, n);
    assert(head@ =~= s@.take(n as int));
    text::string_of(head)
}

/// An IPv6 address without brackets: two colons or more.
pub open spec fn is_bare_ipv6(host: Seq<char>) -> bool {
    types::count_char(host, ':') >= 2 && !text::has_prefix(host, "["@)
}

/// The address of the API: a full URL as it is, without slashes at its end; else
/// the host, in brackets where it is a bare IPv6 address, and the port.
pub open spec fn base_url_text(host: Seq<char>, port: u16) -> Seq<char> {
    if after_scheme(host) is Some {
        without_slashes(host)
    } else if is_bare_ipv6(host) {
        "http://["@ + host + "]:"@ + text::decimal(port as nat)
    } else {
        "http://"@ + host + ":"@ + text::decimal(port as nat)
    }
}

/// The address of the API.
pub fn base_url(host: &str, port: u16) -> (r: String)
    ensures
        r@ == base_url_text(host@, port),
{
    let chars = text::chars_of(host);
    if scheme_len(chars.as_slice()) > 0 {
        return strip_slashes(chars.as_slice());
    }
    let number = text::decimal_text(port as u64);
    let bracket = text::chars_of("[");
    if types::count_of(chars.as_slice(), ':') >= 2 && !text::starts_with(
        chars.as_slice(),
        bracket.as_slice(),
    ) {
        "http://[".to_string().concat(host).concat("]:").concat(number.as_str())
    } else {
        "http://".to_string().concat(host).concat(":").concat(number.as_str())
    }
}

/// Without permission only this machine is contacted; with it every host is.
pub proof fn law_remote_hosts_need_permission(host: Seq<char>)
    ensures
        host_fault(host, false) is None <==> is_loopback_text(host),
        host_fault(host, true) is None,
{
}

proof fn lemma_first_piece(s: Seq<char>, stops: Seq<char>, k: int)
    requires
        0 <= k <= s.len(),
        forall|i: int| 0 <= i < k ==> !stops.contains(#[trigger] s[i]),
        k < s.len() ==> stops.contains(s[k]),
    ensures
        before_any(s, stops) == s.take(k),
    decreases s.len(),
{
    text::lemma_split_nonempty(s, stops);
    if s.len() == 0 {
        assert(s.take(0) =~= Seq::<char>::empty());
    } else {
        let rest = s.drop_last();
        text::lemma_split_nonempty(rest, stops);
        if k < s.len() {
            if k < rest.len() {
                assert(rest[k] == s[k]);
            }
            assert forall|i: int| 0 <= i < k implies !stops.contains(#[trigger] rest[i]) by {
                assert(rest[i] == s[i]);
            }
            lemma_first_piece(rest, stops, k);
            assert(rest.take(k) =~= s.take(k));
            if k < s.len() - 1 {
                lemma_more_than_one_piece(rest, stops, k);
            }
        } else {
            assert forall|i: int| 0 <= i < k - 1 implies !stops.contains(#[trigger] rest[i]) by {
                assert(rest[i] == s[i]);
            }
            lemma_first_piece(rest, stops, k - 1);
            lemma_only_one_piece(rest, stops);
            assert(!stops.contains(s[k - 1]));
            assert(rest.take(k - 1).push(s.last()) =~= s.take(k));
        }
    }
}

proof fn lemma_more_than_one_piece(s: Seq<char>, stops: Seq<char>, k: int)
    requires
        0 <= k < s.len(),
        stops.contains(s[k]),
    ensures
        text::split(s, stops).len() > 1,
    decreases s.len(),
{
    text::lemma_split_nonempty(s.drop_last(), stops);
    if k < s.len() - 1 {
        lemma_more_than_one_piece(s.drop_last(), stops, k);
    }
}

proof fn lemma_only_one_piece(s: Seq<char>, stops: Seq<char>)
    requires
        forall|i: int| 0 <= i < s.len() ==> !stops.contains(#[trigger] s[i]),
    ensures
        text::split(s, stops).len() == 1,
    decreases s.len(),
{
    if s.len() > 0 {
        let rest = s.drop_last();
        assert forall|i: int| 0 <= i < rest.len() implies !stops.contains(#[trigger] rest[i]) by {
            assert(rest[i] == s[i]);
        }
        lemma_only_one_piece(rest, stops);
        assert(!stops.contains(s[s.len() - 1]));
    }
}

/// A bare host is this machine exactly under one of four names, in any case.
pub proof fn law_bare_hosts_of_this_machine(host: Seq<char>)
    requires
        !text::has_prefix(text::lower(host), "http://"@),
        !text::has_prefix(text::lower(host), "https://"@),
    ensures
        is_loopback_text(host) <==> {
            ||| text::lower(host) == "127.0.0.1"@
            ||| text::lower(host) == "localhost"@
            ||| text::lower(host) == "::1"@
            ||| text::lower(host) == "[::1]"@
        },
{
}

/// An authority up to `n` is the name, and what follows is nothing or a port.
pub open spec fn names_this_machine(authority: Seq<char>, n: int) -> bool {
    &&& 0 <= n <= authority.len()
    &&& {
        ||| text::lower(authority.take(n)) == "127.0.0.1"@
        ||| text::lower(authority.take(n)) == "localhost"@
        ||| authority.take(n) == "[::1]"@
    }
    &&& n < authority.len() ==> {
        &&& authority[n] == ':'
        &&& n + 1 < authority.len()
        &&& forall|i: int| n < i < authority.len() ==> '0' <= #[trigger] authority[i] <= '9'
    }
}

/// A URL is on this machine exactly when what stands between its scheme and the first
/// slash, question mark or number sign is a name of this machine, alone or with a
/// port.
pub proof fn law_urls_of_this_machine(scheme: Seq<char>, rest: Seq<char>, k: int)
    requires
        text::lower(scheme) == "http://"@ || text::lower(scheme) == "https://"@,
        0 <= k <= rest.len(),
        forall|i: int|
            0 <= i < k ==> #[trigger] rest[i] != '/' && rest[i] != '?' && rest[i] != '#',
        k < rest.len() ==> rest[k] == '/' || rest[k] == '?' || rest[k] == '#',
    ensures
        is_loopback_text(scheme + rest) <==> exists|n: int| #[trigger]
            names_this_machine(rest.take(k), n),
{
    let host = scheme + rest;
    let lower = text::lower(host);
    reveal_strlit("http://");
    reveal_strlit("https://");
    assert(text::lower(scheme).len() == scheme.len());
    assert(lower.take(scheme.len() as int) =~= text::lower(scheme));
    if text::lower(scheme) == "https://"@ {
        assert(lower[4] == 's') by {
            assert(lower.take(scheme.len() as int)[4] == lower[4]);
        }
        if text::has_prefix(lower, "http://"@) {
            assert(lower.take(7)[4] == lower[4]);
            assert("http://"@[4] == ':');
        }
    }
    assert(host.skip(scheme.len() as int) =~= rest);
    assert(after_scheme(host) == Some(rest));
    let stops = "/?#"@;
    reveal_strlit("/?#");
    assert forall|c: char| #[trigger] stops.contains(c) <==> c == '/' || c == '?' || c == '#' by {
        assert(stops[0] == '/' && stops[1] == '?' && stops[2] == '#');
        if stops.contains(c) {
            let i = choose|i: int| 0 <= i < stops.len() && stops[i] == c;
            assert(i == 0 || i == 1 || i == 2);
        }
    }
    lemma_first_piece(rest, stops, k);
    lemma_local_authority(rest.take(k));
}

proof fn lemma_local_authority(authority: Seq<char>)
    ensures
        is_local_authority(authority) <==> exists|n: int| #[trigger]
            names_this_machine(authority, n),
{
    reveal_strlit("[::1]");
    reveal_strlit("127.0.0.1");
    reveal_strlit("localhost");
    reveal_strlit(":");
    let bracketed = "[::1]"@;
    assert(":"@.len() == 1 && ":"@[0] == ':');
    assert forall|c: char| #[trigger] ":"@.contains(c) <==> c == ':' by {
        if c == ':' {
            assert(":"@[0] == c);
        }
    }
    if text::has_prefix(authority, bracketed) {
        let rest = authority.skip(5);
        assert(authority.take(5) == bracketed);
        assert(bracketed[0] == '[');
        assert(authority[0] == authority.take(5)[0]);
        if is_local_authority(authority) {
            if rest.len() > 0 {
                assert(rest[0] == authority[5]);
                assert forall|i: int| 5 < i < authority.len() implies '0' <= #[trigger] authority[i] <= '9' by {
                    assert(rest.skip(1)[i - 6] == authority[i]);
                    assert(text::is_digit(rest.skip(1)[i - 6]));
                }
            }
            assert(names_this_machine(authority, 5));
        }
        if exists|n: int| #[trigger] names_this_machine(authority, n) {
            let n = choose|n: int| #[trigger] names_this_machine(authority, n);
            let name = authority.take(n);
            if text::lower(name) == "127.0.0.1"@ || text::lower(name) == "localhost"@ {
                assert(text::lower(name)[0] == text::lower_char(name[0]));
                assert(name[0] == '[');
                assert(false);
            }
            assert(n == 5);
            if rest.len() > 0 {
                assert(rest[0] == authority[5]);
                assert forall|i: int| 0 <= i < rest.skip(1).len() implies text::is_digit(
                    rest.skip(1)[i],
                ) by {
                    assert(rest.skip(1)[i] == authority[6 + i]);
                }
            }
        }
    } else {
        let k = types::first_char(authority, ':');
        types::lemma_first_char(authority, ':');
        lemma_first_piece(authority, ":"@, k);
        let name = authority.take(k);
        let rest = authority.skip(k);
        if is_local_authority(authority) {
            if rest.len() > 0 {
                assert(rest[0] == authority[k]);
                assert forall|i: int| k < i < authority.len() implies '0' <= #[trigger] authority[i] <= '9' by {
                    assert(rest.skip(1)[i - k - 1] == authority[i]);
                    assert(text::is_digit(rest.skip(1)[i - k - 1]));
                }
            }
            assert(names_this_machine(authority, k));
        }
        if exists|n: int| #[trigger] names_this_machine(authority, n) {
            let n = choose|n: int| #[trigger] names_this_machine(authority, n);
            let found = authority.take(n);
            if found == bracketed {
                assert(n == 5);
                assert(false);
            }
            assert forall|i: int| 0 <= i < n implies #[trigger] authority[i] != ':' by {
                assert(text::lower(found)[i] == text::lower_char(authority[i]));
                if authority[i] == ':' {
                    assert(text::lower(found)[i] == ':');
                    lemma_no_colon(text::lower(found), i);
                }
            }
            assert(n == k) by {
                if k < n {
                    assert(authority[k] != ':');
                }
            }
            if rest.len() > 0 {
                assert(rest[0] == authority[k]);
                assert forall|i: int| 0 <= i < rest.skip(1).len() implies text::is_digit(
                    rest.skip(1)[i],
                ) by {
                    assert(rest.skip(1)[i] == authority[k + 1 + i]);
                }
            }
        }
    }
}

proof fn lemma_no_colon(name: Seq<char>, i: int)
    requires
        name == "127.0.0.1"@ || name == "localhost"@,
        0 <= i < name.len(),
    ensures
        name[i] != ':',
{
    reveal_strlit("127.0.0.1");
    reveal_strlit("localhost");
    assert(i == 0 || i == 1 || i == 2 || i == 3 || i == 4 || i == 5 || i == 6 || i == 7 || i == 8);
}

/// The address of the API: a bare host with its port, in brackets where the host has
/// two colons or more and no bracket in front; a full URL without the slashes at its
/// end.
pub proof fn law_base_url(host: Seq<char>, port: u16)
    ensures
        ({
            let url = base_url_text(host, port);
            let full = text::has_prefix(text::lower(host), "http://"@) || text::has_prefix(
                text::lower(host),
                "https://"@,
            );
            let colons = exists|i: int, j: int|
                0 <= i < j < host.len() && #[trigger] host[i] == ':' && #[trigger] host[j] == ':';
            let bracket = host.len() > 0 && host[0] == '[';
            &&& full ==> url == host.take(url.len() as int) && url.len() <= host.len() && (url.len()
                > 0 ==> url.last() != '/') && forall|i: int|
                url.len() <= i < host.len() ==> #[trigger] host[i] == '/'
            &&& !full && colons && !bracket ==> url == "http://["@ + host + "]:"@ + text::decimal(
                port as nat,
            )
            &&& !full && (!colons || bracket) ==> url == "http://"@ + host + ":"@ + text::decimal(
                port as nat,
            )
        }),
{
    lemma_without_slashes(host);
    lemma_two_of(host, ':');
    reveal_strlit("[");
    if host.len() > 0 {
        assert(host.take(1)[0] == host[0]);
        if host[0] == '[' {
            assert(host.take(1) =~= "["@);
        }
    }
}

proof fn lemma_without_slashes(s: Seq<char>)
    ensures
        ({
            let r = without_slashes(s);
            &&& r.len() <= s.len()
            &&& r == s.take(r.len() as int)
            &&& r.len() > 0 ==> r.last() != '/'
            &&& forall|i: int| r.len() <= i < s.len() ==> #[trigger] s[i] == '/'
        }),
    decreases s.len(),
{
    if s.len() > 0 && s.last() == '/' {
        let rest = s.drop_last();
        lemma_without_slashes(rest);
        let r = without_slashes(s);
        assert(rest.take(r.len() as int) =~= s.take(r.len() as int));
        assert forall|i: int| r.len() <= i < s.len() implies #[trigger] s[i] == '/' by {
            if i < rest.len() {
                assert(rest[i] == s[i]);
            }
        }
    } else {
        assert(s.take(s.len() as int) =~= s);
    }
}

proof fn lemma_one_of(s: Seq<char>, c: char)
    ensures
        types::count_char(s, c) >= 1 <==> exists|i: int| 0 <= i < s.len() && #[trigger] s[i] == c,
    decreases s.len(),
{
    if s.len() > 0 {
        let rest = s.drop_last();
        lemma_one_of(rest, c);
        if types::count_char(s, c) >= 1 {
            if s.last() == c {
                assert(s[s.len() - 1] == c);
            } else {
                let i = choose|i: int| 0 <= i < rest.len() && #[trigger] rest[i] == c;
                assert(s[i] == c);
            }
        }
        if exists|i: int| 0 <= i < s.len() && #[trigger] s[i] == c {
            let i = choose|i: int| 0 <= i < s.len() && #[trigger] s[i] == c;
            if i < rest.len() {
                assert(rest[i] == c);
            }
        }
    }
}

proof fn lemma_two_of(s: Seq<char>, c: char)
    ensures
        types::count_char(s, c) >= 2 <==> exists|i: int, j: int|
            0 <= i < j < s.len() && #[trigger] s[i] == c && #[trigger] s[j] == c,
    decreases s.len(),
{
    if s.len() > 0 {
        let rest = s.drop_last();
        let last = s.len() - 1;
        lemma_two_of(rest, c);
        lemma_one_of(rest, c);
        if types::count_char(s, c) >= 2 {
            if types::count_char(rest, c) >= 2 {
                let (i, j) = choose|i: int, j: int|
                    0 <= i < j < rest.len() && #[trigger] rest[i] == c && #[trigger] rest[j] == c;
                assert(s[i] == c && s[j] == c);
            } else {
                let i = choose|i: int| 0 <= i < rest.len() && #[trigger] rest[i] == c;
                assert(s[i] == c && s[last] == c);
            }
        }
        if exists|i: int, j: int|
            0 <= i < j < s.len() && #[trigger] s[i] == c && #[trigger] s[j] == c {
            let (i, j) = choose|i: int, j: int|
                0 <= i < j < s.len() && #[trigger] s[i] == c && #[trigger] s[j] == c;
            assert(rest[i] == c);
            if j < last {
                assert(rest[j] == c);
            }
        }
    }
}

} // verus!
