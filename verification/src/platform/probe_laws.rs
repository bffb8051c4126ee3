//! Where a plain connection is opened.
use crate::number_laws::decimal_reads_back;
use crate::parse::is_digit;
use crate::platform::http_probe::{last_before, tcp_target, text_from, without_scheme};
use crate::text::{decimal, stands_at};
use crate::text_laws::{all_of, dropping_takes_the_end};
use vstd::prelude::*;

verus! {

proof fn lemma_no_part(text: Seq<char>, i: int)
    requires
        0 <= i,
        forall|k: int| 0 <= k < text.len() ==> #[trigger] text[k] != '/',
    ensures
        text_from(text, "://"@, i) is None,
    decreases text.len() + 1 - i,
{
    reveal_strlit("://");
    if i <= text.len() - 3 {
        if stands_at(text, "://"@, i) {
            assert(text.subrange(i, i + 3)[1] == "://"@[1]);
            assert(text[i + 1] == '/');
        }
        lemma_no_part(text, i + 1);
    }
}

proof fn lemma_part_at(scheme: Seq<char>, rest: Seq<char>, i: int)
    requires
        0 <= i <= scheme.len(),
        forall|k: int| 0 <= k < scheme.len() ==> #[trigger] scheme[k] != ':',
    ensures
        text_from(scheme + "://"@ + rest, "://"@, i) == Some(scheme.len() as int),
    decreases scheme.len() - i,
{
    reveal_strlit("://");
    let text = scheme + "://"@ + rest;
    if i < scheme.len() {
        if stands_at(text, "://"@, i) {
            assert(text.subrange(i, i + 3)[0] == "://"@[0]);
            assert(text[i] == scheme[i]);
        }
        lemma_part_at(scheme, rest, i + 1);
    } else {
        assert(text.subrange(i, i + 3) =~= "://"@);
    }
}

proof fn lemma_last_at(text: Seq<char>, c: char, at: int, n: int)
    requires
        0 <= at < n <= text.len(),
        text[at] == c,
        forall|k: int| at < k < n ==> #[trigger] text[k] != c,
    ensures
        last_before(text, c, n) == Some(at),
    decreases n,
{
    if n - 1 > at {
        assert(text[n - 1] != c);
        lemma_last_at(text, c, at, n - 1);
    }
}

proof fn lemma_last_none(text: Seq<char>, c: char, n: int)
    requires
        0 <= n <= text.len(),
        forall|k: int| 0 <= k < n ==> #[trigger] text[k] != c,
    ensures
        last_before(text, c, n) is None,
    decreases n,
{
    if n > 0 {
        assert(text[n - 1] != c);
        lemma_last_none(text, c, n - 1);
    }
}

/// What stands before the first `://`, and slashes at the end, say nothing of where to connect.
pub proof fn scheme_and_slashes_do_not_count(scheme: Seq<char>, rest: Seq<char>, slashes: Seq<char>)
    requires
        forall|k: int| 0 <= k < scheme.len() ==> #[trigger] scheme[k] != ':',
        forall|k: int| 0 <= k < rest.len() ==> #[trigger] rest[k] != '/',
        forall|k: int| 0 <= k < slashes.len() ==> #[trigger] slashes[k] == '/',
    ensures
        without_scheme(scheme + "://"@ + (rest + slashes)) == rest,
        without_scheme(rest) == rest,
{
    reveal_strlit("://");
    let p = |c: char| c == '/';
    let text = scheme + "://"@ + (rest + slashes);
    lemma_part_at(scheme, rest + slashes, 0);
    assert(text.skip(scheme.len() as int + 3) =~= rest + slashes);
    assert(all_of(slashes, p));
    assert(all_of(Seq::empty(), p));
    if rest.len() > 0 {
        assert(rest[rest.len() - 1] != '/');
    }
    dropping_takes_the_end(rest, slashes, p);
    lemma_no_part(rest, 0);
    assert(rest + Seq::<char>::empty() =~= rest);
    dropping_takes_the_end(rest, Seq::empty(), p);
}

/// A host with a port behind a colon is connected to at that port; without one, or with one that is
/// none, at the usual port.
pub proof fn host_is_connected_to_at_its_port(host: Seq<char>, port: nat, usual: u16)
    requires
        forall|k: int| 0 <= k < host.len() ==> #[trigger] host[k] != '/' && host[k] != ':',
    ensures
        ({
            let target = tcp_target(host + seq![':'] + decimal(port), usual);
            &&& target.host == host
            &&& target.port == if port <= 65535 {
                port as u16
            } else {
                usual
            }
        }),
        tcp_target(host, usual).host == host,
        tcp_target(host, usual).port == usual,
{
    decimal_reads_back(port);
    let digits = decimal(port);
    let text = host + seq![':'] + digits;
    assert forall|k: int| 0 <= k < text.len() implies #[trigger] text[k] != '/' by {
        if k < host.len() {
            assert(text[k] == host[k]);
        } else if k > host.len() {
            assert(is_digit(digits[k - host.len() - 1]));
        }
    }
    scheme_and_slashes_do_not_count(Seq::empty(), text, Seq::empty());
    scheme_and_slashes_do_not_count(Seq::empty(), host, Seq::empty());
    assert forall|k: int| host.len() < k < text.len() implies #[trigger] text[k] != ':' by {
        assert(is_digit(digits[k - host.len() - 1]));
    }
    lemma_last_at(text, ':', host.len() as int, text.len() as int);
    lemma_last_none(host, ':', host.len() as int);
    assert(text.skip(host.len() as int + 1) =~= digits);
    assert(text.take(host.len() as int) =~= host);
}

} // verus!
