//! What listings and probes of object storage show.
use crate::parse::int_text;
use crate::platform::error::PlatformErrorView;
use crate::platform::http_date::http_date;
use crate::platform::http_probe::last_before;
use crate::platform::ip_allowlist::position_from;
use crate::platform::storage_driver::{DriverConfigView, DriverEntryView};
use crate::platform::storage_s3::{
    listed_object, page_size, s3_error, s3_listing, s3_probed, s3_request, S3ObjectView,
};
use crate::platform::storage_webdav::{
    dav_children, dav_entries, dav_listed, dav_listing, dav_probed, dav_run, dav_step, dav_url,
    entry_name, percent_decoded, resolved, tag_name, unescaped_bytes, xml_events, DavProgress,
    DavResponseView, XmlEventView,
};
use crate::text::{begins_with, drop_while, trimmed_text};
use crate::text_laws::{all_of, dropping_takes_the_end, skipping_takes_the_lead};
use vstd::prelude::*;

verus! {

/// The position of the last such character.
proof fn lemma_last_before(text: Seq<char>, c: char, n: int)
    requires
        0 <= n <= text.len(),
    ensures
        match last_before(text, c, n) {
            Some(i) => 0 <= i < n && text[i] == c && forall|j: int| i < j < n ==> text[j] != c,
            None => forall|j: int| 0 <= j < n ==> text[j] != c,
        },
    decreases n,
{
    if n > 0 && text[n - 1] != c {
        lemma_last_before(text, c, n - 1);
    }
}

/// The name of what an address leads to is its last segment, whether or not slashes follow.
pub proof fn name_is_last_segment(href: Seq<char>, head: Seq<char>, name: Seq<char>, end: Seq<char>)
    requires
        percent_decoded(href) == head + name + end,
        head.len() == 0 || head.last() == '/',
        name.len() > 0,
        forall|i: int| 0 <= i < name.len() ==> #[trigger] name[i] != '/',
        all_of(end, |c: char| c == '/'),
    ensures
        entry_name(href) == name,
{
    let p = |c: char| c == '/';
    let text = head + name;
    assert(text.last() == name.last());
    assert(name[name.len() - 1] != '/');
    dropping_takes_the_end(text, end, p);
    lemma_last_before(text, '/', text.len() as int);
    match last_before(text, '/', text.len() as int) {
        Some(i) => {
            if i >= head.len() {
                assert(name[i - head.len()] != '/');
            }
            if head.len() > 0 {
                assert(text[head.len() - 1] == '/');
            }
            assert(text.skip(i + 1) =~= name);
        },
        None => {
            if head.len() > 0 {
                assert(text[head.len() - 1] == '/');
            }
            assert(text =~= name);
        },
    }
}

/// Every entry of a WebDAV listing lies under the listed prefix: its key is the prefix and its
/// name, with a slash after it exactly where it is a folder. Names are never empty and hold no
/// slash, and no more entries are shown than a page has.
pub proof fn dav_keys_extend_the_prefix(
    responses: Seq<DavResponseView>,
    prefix: Seq<char>,
    limit: i32,
)
    ensures
        forall|k: int|
            0 <= k < dav_listing(responses, prefix, limit).entries.len() ==> {
                let e = #[trigger] dav_listing(responses, prefix, limit).entries[k];
                &&& e.is_prefix ==> e.key =~= prefix + e.name + seq!['/']
                &&& !e.is_prefix ==> e.key =~= prefix + e.name
                &&& e.is_prefix ==> e.size_bytes is None
                &&& e.name.len() > 0
                &&& forall|i: int| 0 <= i < e.name.len() ==> #[trigger] e.name[i] != '/'
            },
        dav_listing(responses, prefix, limit).entries.len() <= responses.len(),
        responses.len() > 0 ==> dav_listing(responses, prefix, limit).entries.len()
            < responses.len(),
        dav_listing(responses, prefix, limit).entries.len() <= 1000,
        limit >= 1 ==> dav_listing(responses, prefix, limit).entries.len() <= limit,
        dav_listing(responses, prefix, limit).next_token is None,
{
    lemma_dav_entries(dav_children(responses, limit), prefix);
}

proof fn lemma_dav_entries(rows: Seq<DavResponseView>, prefix: Seq<char>)
    ensures
        dav_entries(rows, prefix).len() <= rows.len(),
        forall|k: int|
            0 <= k < dav_entries(rows, prefix).len() ==> {
                let e = #[trigger] dav_entries(rows, prefix)[k];
                &&& e.is_prefix ==> e.key =~= prefix + e.name + seq!['/']
                &&& !e.is_prefix ==> e.key =~= prefix + e.name
                &&& e.is_prefix ==> e.size_bytes is None
                &&& e.name.len() > 0
                &&& forall|i: int| 0 <= i < e.name.len() ==> #[trigger] e.name[i] != '/'
            },
        forall|j: int|
            0 <= j < rows.len() && entry_name((#[trigger] rows[j]).href).len() > 0 ==> exists|k: int|
                0 <= k < dav_entries(rows, prefix).len() && shows(
                    #[trigger] dav_entries(rows, prefix)[k],
                    rows[j],
                ),
    decreases rows.len(),
{
    if rows.len() > 0 {
        let init = rows.drop_last();
        lemma_dav_entries(init, prefix);
        let so_far = dav_entries(init, prefix);
        let out = dav_entries(rows, prefix);
        let last = rows.last();
        reveal_strlit("/");
        reveal_strlit("");
        let name = entry_name(last.href);
        let bare = drop_while(percent_decoded(last.href), |c: char| c == '/');
        lemma_last_before(bare, '/', bare.len() as int);
        assert forall|i: int| 0 <= i < name.len() implies #[trigger] name[i] != '/' by {
            match last_before(bare, '/', bare.len() as int) {
                Some(at) => {
                    assert(name[i] == bare[at + 1 + i]);
                },
                None => {
                    assert(name[i] == bare[i]);
                },
            }
        }
        if name.len() > 0 {
            assert(out == so_far.push(out.last()));
            assert("/"@ =~= seq!['/']);
            assert(prefix + name + ""@ =~= prefix + name);
        }
        assert forall|j: int|
            0 <= j < rows.len() && entry_name((#[trigger] rows[j]).href).len() > 0 implies exists|
            k: int,
        | 0 <= k < out.len() && shows(#[trigger] out[k], rows[j]) by {
            if j < init.len() {
                assert(init[j] == rows[j]);
                let k = choose|k: int| 0 <= k < so_far.len() && shows(#[trigger] so_far[k], init[j]);
                assert(out[k] == so_far[k]);
            } else {
                assert(shows(out[so_far.len() as int], last));
            }
        }
    }
}

/// Whether an entry shows what a response says.
pub open spec fn shows(e: DriverEntryView, r: DavResponseView) -> bool {
    &&& e.name == entry_name(r.href)
    &&& e.is_prefix == r.is_collection
    &&& !r.is_collection ==> e.size_bytes == r.size
    &&& e.last_modified == r.last_modified
}

/// Every response but the first, which is the folder itself, is shown where it has a name and the
/// page has room.
pub proof fn dav_listing_is_complete(
    responses: Seq<DavResponseView>,
    prefix: Seq<char>,
    limit: i32,
    j: int,
)
    requires
        1 <= j < responses.len(),
        j <= limit,
        j <= 1000,
        entry_name(responses[j].href).len() > 0,
    ensures
        exists|k: int|
            0 <= k < dav_listing(responses, prefix, limit).entries.len() && shows(
                #[trigger] dav_listing(responses, prefix, limit).entries[k],
                responses[j],
            ),
{
    let rows = dav_children(responses, limit);
    assert(rows[j - 1] == responses[j]);
    lemma_dav_entries(rows, prefix);
    let out = dav_entries(rows, prefix);
    let k = choose|k: int| 0 <= k < out.len() && shows(#[trigger] out[k], rows[j - 1]);
    assert(shows(dav_listing(responses, prefix, limit).entries[k], responses[j]));
}

/// A listing is had exactly from a multi-status answer that is well-formed.
pub proof fn dav_listing_needs_a_multi_status(
    status: u16,
    body: Seq<char>,
    prefix: Seq<char>,
    limit: i32,
)
    ensures
        dav_listed(status, body, prefix, limit) is Ok <==> status == 207 && forall|i: int|
            0 <= i < xml_events(body).len() ==> !(#[trigger] xml_events(body)[i] is Malformed),
{
    lemma_run_ok(xml_events(body));
}

proof fn lemma_run_ok(events: Seq<XmlEventView>)
    ensures
        dav_run(events) is Ok <==> forall|i: int|
            0 <= i < events.len() ==> !(#[trigger] events[i] is Malformed),
    decreases events.len(),
{
    if events.len() > 0 {
        let init = events.drop_last();
        lemma_run_ok(init);
        if forall|i: int| 0 <= i < init.len() ==> !(#[trigger] init[i] is Malformed) {
            assert forall|i: int| 0 <= i < events.len() - 1 implies !(
            #[trigger] events[i] is Malformed) by {
                assert(init[i] == events[i]);
            }
        } else {
            let i = choose|i: int| 0 <= i < init.len() && #[trigger] init[i] is Malformed;
            assert(events[i] is Malformed);
        }
        assert(events.last() == events[events.len() - 1]);
    }
}

/// What the text of an element says goes into the entry that is being read: the address, the size
/// and the time, each from its own element, without white space around it. What else there is says
/// nothing.
pub proof fn element_text_is_read(
    before: Seq<XmlEventView>,
    st: DavProgress,
    cur: DavResponseView,
    tag: Seq<u8>,
    text: Seq<char>,
)
    requires
        dav_run(before) == Ok::<DavProgress, Seq<char>>(st),
        st.current == Some(cur),
        st.field is None,
        tag_name(tag) != "response"@,
    ensures
        ({
            let events = before.push(XmlEventView::Start(tag)).push(XmlEventView::Text(text)).push(
                XmlEventView::End(tag),
            );
            let said = trimmed_text(resolved(text));
            dav_run(events) matches Ok(after) && after.current matches Some(c) && {
                &&& after.done == st.done
                &&& after.field is None
                &&& c.is_collection == cur.is_collection
                &&& c.href == if tag_name(tag) == "href"@ {
                    said
                } else {
                    cur.href
                }
                &&& c.size == if tag_name(tag) == "getcontentlength"@ {
                    int_text(said)
                } else {
                    cur.size
                }
                &&& c.last_modified == if tag_name(tag) == "getlastmodified"@ {
                    http_date(said)
                } else {
                    cur.last_modified
                }
            }
        }),
{
    reveal_strlit("href");
    reveal_strlit("getcontentlength");
    reveal_strlit("getlastmodified");
    assert("href"@.len() == 4 && "getcontentlength"@.len() == 16 && "getlastmodified"@.len() == 15);
    assert(Seq::<char>::empty() + resolved(text) =~= resolved(text));
    let e1 = before.push(XmlEventView::Start(tag));
    let e2 = e1.push(XmlEventView::Text(text));
    let e3 = e2.push(XmlEventView::End(tag));
    assert(e1.drop_last() =~= before);
    assert(e2.drop_last() =~= e1);
    assert(e3.drop_last() =~= e2);
    assert(dav_run(e1) == Ok::<DavProgress, Seq<char>>(dav_step(st, XmlEventView::Start(tag))));
    assert(dav_run(e2) is Ok && dav_run(e3) is Ok);
}

/// A response begins with nothing known of it, is marked as a folder by the mark of one alone, and
/// when it ends is one more entry as it was read.
pub proof fn response_is_one_entry(before: Seq<XmlEventView>, st: DavProgress, tag: Seq<u8>)
    requires
        dav_run(before) == Ok::<DavProgress, Seq<char>>(st),
    ensures
        tag_name(tag) == "response"@ ==> (dav_run(before.push(XmlEventView::Start(tag))) matches Ok(
            after,
        ) && after.done == st.done && (after.current matches Some(c) && c.href.len() == 0
            && !c.is_collection && c.size is None && c.last_modified is None)),
        st.current matches Some(cur) ==> (dav_run(before.push(XmlEventView::Empty(tag))) matches Ok(
            after,
        ) && after.done == st.done && (after.current matches Some(c) && c.href == cur.href && c.size
            == cur.size && c.last_modified == cur.last_modified && c.is_collection == (
        cur.is_collection || tag_name(tag) == "collection"@))),
        tag_name(tag) == "response"@ && st.current is Some ==> (dav_run(
            before.push(XmlEventView::End(tag)),
        ) matches Ok(after) && after.done == st.done.push(st.current->0) && after.current is None),
{
    assert(before.push(XmlEventView::Start(tag)).drop_last() =~= before);
    assert(before.push(XmlEventView::Empty(tag)).drop_last() =~= before);
    assert(before.push(XmlEventView::End(tag)).drop_last() =~= before);
}

/// A text as it stands in an address, every byte escaped.
pub open spec fn escaped(bytes: Seq<u8>) -> Seq<u8>
    decreases bytes.len(),
{
    if bytes.len() == 0 {
        Seq::empty()
    } else {
        seq![37u8, hex_digit(bytes[0] as int / 16), hex_digit(bytes[0] as int % 16)] + escaped(
            bytes.skip(1),
        )
    }
}

/// A hexadecimal digit as it is written, in upper case.
pub open spec fn hex_digit(n: int) -> u8 {
    if n < 10 {
        (48 + n) as u8
    } else {
        (55 + n) as u8
    }
}

/// Decoding undoes escaping, whatever is escaped.
pub proof fn decoding_undoes_escaping(bytes: Seq<u8>)
    ensures
        unescaped_bytes(escaped(bytes)) == bytes,
    decreases bytes.len(),
{
    if bytes.len() > 0 {
        let text = escaped(bytes);
        decoding_undoes_escaping(bytes.skip(1));
        assert(text.skip(3) =~= escaped(bytes.skip(1)));
        assert(seq![bytes[0]] + bytes.skip(1) =~= bytes);
    } else {
        assert(unescaped_bytes(escaped(bytes)) =~= bytes);
    }
}

/// The address of a folder is the endpoint, the share and the prefix with one slash between them
/// and one at the end, however many slashes are given around them.
pub proof fn urls_have_single_slashes(
    cfg: DriverConfigView,
    prefix: Seq<char>,
    base: Seq<char>,
    share: Seq<char>,
    path: Seq<char>,
    a: Seq<char>,
    b: Seq<char>,
    c: Seq<char>,
    d: Seq<char>,
    e: Seq<char>,
)
    requires
        all_of(a, |c: char| c == '/'),
        all_of(b, |c: char| c == '/'),
        all_of(c, |c: char| c == '/'),
        all_of(d, |c: char| c == '/'),
        all_of(e, |c: char| c == '/'),
        base.len() > 0 && base.last() != '/',
        share.len() > 0 && share[0] != '/' && share.last() != '/',
        path.len() > 0 && path[0] != '/' && path.last() != '/',
        cfg.endpoint == base + a,
        cfg.bucket == b + share + c,
        prefix == d + path + e,
    ensures
        dav_url(cfg, prefix) =~= base + seq!['/'] + share + seq!['/'] + path + seq!['/'],
{
    let p = |c: char| c == '/';
    dropping_takes_the_end(base, a, p);
    assert(b + share + c =~= b + (share + c));
    assert((share + c)[0] == share[0]);
    skipping_takes_the_lead(b, share + c, p);
    dropping_takes_the_end(share, c, p);
    assert(d + path + e =~= d + (path + e));
    assert((path + e)[0] == path[0]);
    skipping_takes_the_lead(d, path + e, p);
    dropping_takes_the_end(path, e, p);
}

/// A share is reachable exactly where it answers with a multi-status, and the message names it.
/// Refused credentials and a missing path are told apart from the rest.
pub proof fn share_is_reachable_by_multi_status(bucket: Seq<char>, url: Seq<char>, status: u16)
    ensures
        dav_probed(bucket, url, status) is Ok <==> status == 207,
        status == 207 ==> dav_probed(bucket, url, status) == Ok::<Seq<char>, PlatformErrorView>(
            "WebDAV share "@ + bucket + " reachable"@,
        ),
        status == 404 ==> dav_probed(bucket, url, status) == Err::<Seq<char>, PlatformErrorView>(
            PlatformErrorView::BadRequest("404 — 路径不存在: "@ + url),
        ),
{
}

/// A bucket is reachable exactly where the storage took the request.
pub proof fn bucket_is_reachable_where_taken(bucket: Seq<char>, reply: Result<(), Seq<char>>)
    ensures
        s3_probed(bucket, reply) is Ok <==> reply is Ok,
        reply is Ok ==> s3_probed(bucket, reply) == Ok::<Seq<char>, PlatformErrorView>(
            "bucket "@ + bucket + " reachable"@,
        ),
{
}

/// A page has at least one entry and at most a thousand, and as many as asked for in between.
pub proof fn pages_are_within_bounds(limit: i32)
    ensures
        1 <= page_size(limit) <= 1000,
        1 <= limit <= 1000 ==> page_size(limit) == limit,
        limit < 1 ==> page_size(limit) == 1,
        limit > 1000 ==> page_size(limit) == 1000,
{
}

/// A listing request asks for the prefix and goes on from the token where these are given, and for
/// a page of the size asked for.
pub proof fn request_asks_for_what_is_given(
    prefix: Seq<char>,
    token: Option<Seq<char>>,
    limit: i32,
)
    ensures
        prefix.len() > 0 ==> s3_request(prefix, token, limit).prefix == Some(prefix),
        prefix.len() == 0 ==> s3_request(prefix, token, limit).prefix is None,
        token matches Some(t) && t.len() > 0 ==> s3_request(prefix, token, limit).token == token,
        token is None ==> s3_request(prefix, token, limit).token is None,
        1 <= limit <= 1000 ==> s3_request(prefix, token, limit).max_keys == limit,
{
}

/// An S3 listing shows the folders, in order, and after them the objects, but for the one that
/// stands for the listed folder itself. Keys stay as they are, and a key under the prefix is the
/// prefix and the name, with slashes after it for a folder.
pub proof fn s3_keys_extend_the_prefix(
    folders: Seq<Seq<char>>,
    objects: Seq<S3ObjectView>,
    prefix: Seq<char>,
    token: Option<Seq<char>>,
)
    ensures
        ({
            let l = s3_listing(folders, objects, prefix, token);
            let rest = objects.filter(|o: S3ObjectView| o.key matches Some(k) && k != prefix);
            &&& l.next_token == token
            &&& l.entries.len() == folders.len() + rest.len()
            &&& forall|i: int|
                0 <= i < folders.len() ==> {
                    let e = #[trigger] l.entries[i];
                    &&& e.key == folders[i]
                    &&& e.is_prefix
                    &&& e.size_bytes is None
                    &&& e.last_modified is None
                }
            &&& forall|i: int|
                0 <= i < rest.len() ==> {
                    let e = #[trigger] l.entries[folders.len() + i];
                    &&& rest[i].key == Some(e.key)
                    &&& !e.is_prefix
                    &&& e.size_bytes == rest[i].size
                    &&& e.last_modified == rest[i].last_modified
                    &&& e.key.len() >= prefix.len() && e.key.take(prefix.len() as int) == prefix
                        ==> e.key =~= prefix + e.name
                }
        }),
{
    let l = s3_listing(folders, objects, prefix, token);
    let p = listed_object(prefix);
    let q = |o: S3ObjectView| o.key matches Some(k) && k != prefix;
    assert(p =~= q);
    let rest = objects.filter(q);
    assert forall|i: int| 0 <= i < rest.len() implies rest[i].key is Some && #[trigger] l.entries[folders.len() + i]
        == crate::platform::storage_s3::object_entry(rest[i], prefix) by {
        objects.lemma_filter_pred(q, i);
    }
    assert forall|i: int| 0 <= i < rest.len() implies ({
        let e = #[trigger] l.entries[folders.len() + i];
        e.key.len() >= prefix.len() && e.key.take(prefix.len() as int) == prefix ==> e.key
            =~= prefix + e.name
    }) by {
        let e = l.entries[folders.len() + i];
        if begins_with(e.key, prefix) {
            assert(e.key =~= e.key.take(prefix.len() as int) + e.key.skip(prefix.len() as int));
        }
    }
}

/// A folder under the prefix is shown by its name alone.
pub proof fn s3_folder_is_shown_by_name(
    folders: Seq<Seq<char>>,
    objects: Seq<S3ObjectView>,
    prefix: Seq<char>,
    token: Option<Seq<char>>,
    i: int,
    name: Seq<char>,
)
    requires
        0 <= i < folders.len(),
        folders[i] == prefix + name + seq!['/'],
        name.len() > 0 && name.last() != '/',
    ensures
        s3_listing(folders, objects, prefix, token).entries[i].name == name,
{
    let p = |c: char| c == '/';
    assert(folders[i].take(prefix.len() as int) =~= prefix);
    assert(folders[i].skip(prefix.len() as int) =~= name + seq!['/']);
    dropping_takes_the_end(name, seq!['/'], p);
}

proof fn lemma_position(text: Seq<char>, c: char, from: int, at: int)
    requires
        0 <= from <= at < text.len(),
        text[at] == c,
        forall|j: int| from <= j < at ==> text[j] != c,
    ensures
        position_from(text, c, from) == Some(at),
    decreases at - from,
{
    if from < at {
        lemma_position(text, c, from + 1, at);
    }
}

proof fn lemma_no_position(text: Seq<char>, c: char, from: int)
    requires
        0 <= from <= text.len(),
        forall|j: int| from <= j < text.len() ==> text[j] != c,
    ensures
        position_from(text, c, from) is None,
    decreases text.len() - from,
{
    if from < text.len() {
        lemma_no_position(text, c, from + 1);
    }
}

/// An error report of the storage with a code in brackets is cut down to the code.
pub proof fn error_is_cut_to_its_code(head: Seq<char>, code: Seq<char>, tail: Seq<char>)
    requires
        forall|i: int| 0 <= i < head.len() ==> #[trigger] head[i] != '(',
        code.len() > 0,
        forall|i: int|
            0 <= i < code.len() ==> ('0' <= #[trigger] code[i] <= '9' || 'a' <= code[i] <= 'z' || 'A'
                <= code[i] <= 'Z'),
    ensures
        s3_error(head + seq!['('] + code + seq![')'] + tail) == code,
{
    let full = head + seq!['('] + code + seq![')'] + tail;
    let n = head.len() as int;
    assert forall|j: int| 0 <= j < n implies full[j] != '(' by {
        assert(full[j] == head[j]);
    }
    lemma_position(full, '(', 0, n);
    assert(full[n] == '(');
    assert forall|j: int| n <= j < n + 1 + code.len() implies full[j] != ')' by {
        if j > n {
            assert(full[j] == code[j - n - 1]);
        }
    }
    lemma_position(full, ')', n, n + 1 + code.len());
    assert(full.subrange(n + 1, n + 1 + code.len()) =~= code);
}

/// An error report without a bracket is cut down to its first line.
pub proof fn error_is_cut_to_its_first_line(line: Seq<char>, rest: Seq<char>)
    requires
        line.len() > 0,
        line.last() != '\r',
        forall|i: int| 0 <= i < line.len() ==> #[trigger] line[i] != '(' && line[i] != '\n',
        forall|i: int| 0 <= i < rest.len() ==> #[trigger] rest[i] != '(',
    ensures
        s3_error(line) == line,
        s3_error(line + seq!['\n'] + rest) == line,
{
    lemma_no_position(line, '(', 0);
    lemma_no_position(line, '\n', 0);
    let full = line + seq!['\n'] + rest;
    let n = line.len() as int;
    assert forall|j: int| 0 <= j < full.len() implies full[j] != '(' by {
        if j < n {
            assert(full[j] == line[j]);
        } else if j > n {
            assert(full[j] == rest[j - n - 1]);
        }
    }
    lemma_no_position(full, '(', 0);
    assert forall|j: int| 0 <= j < n implies full[j] != '\n' by {
        assert(full[j] == line[j]);
    }
    assert(full[n] == '\n');
    lemma_position(full, '\n', 0, n);
    assert(full[n - 1] == line.last());
    assert(full.take(n) =~= line);
}

} // verus!
