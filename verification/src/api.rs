//! The Chatwork API as the client sees it: endpoint URLs, the records it returns, the
//! filters on contacts, the plain-text output of records, and the checks made around
//! uploads, downloads and sent messages.
use vstd::prelude::*;
use crate::message::{general_error, is_general0, is_general1, msg0, msg1, CliError};
use crate::text::{
    chars_of, contains, contains_spec, occurs_at, decimal, decimal_chars, find_char, find_spec, find_str,
    lemma_find_from, push_all, slice_chars, string_of, trim_str, trim_spec,
};

verus! {

/// The largest file that can be uploaded: 5 MB.
pub const MAX_UPLOAD_BYTES: u64 = 5242880;

/// `s` without the characters `c` at its end (`str::trim_end_matches`).
pub open spec fn trim_end_char(s: Seq<char>, c: char) -> Seq<char>
    decreases s.len(),
{
    if s.len() > 0 && s.last() == c {
        trim_end_char(s.drop_last(), c)
    } else {
        s
    }
}

/// `s` without the characters `c` at its start (`str::trim_start_matches`).
pub open spec fn trim_start_char(s: Seq<char>, c: char) -> Seq<char>
    decreases s.len(),
{
    if s.len() > 0 && s[0] == c {
        trim_start_char(s.drop_first(), c)
    } else {
        s
    }
}

/// The URL of the API resource `path` below `base_url`, with exactly one `/` between the
/// two.
pub open spec fn endpoint_spec(base_url: Seq<char>, path: Seq<char>) -> Seq<char> {
    trim_end_char(base_url, '/') + seq!['/'] + trim_start_char(path, '/')
}

proof fn lemma_trim_end_char(s: Seq<char>, c: char, b: int)
    requires
        0 <= b <= s.len(),
        forall|k: int| b <= k < s.len() ==> #[trigger] s[k] == c,
        b > 0 ==> s[b - 1] != c,
    ensures
        trim_end_char(s, c) == s.take(b),
    decreases s.len() - b,
{
    if b == s.len() {
        assert(s.take(b) =~= s);
    } else {
        let t = s.drop_last();
        assert forall|k: int| b <= k < t.len() implies #[trigger] t[k] == c by {
            assert(t[k] == s[k]);
        }
        lemma_trim_end_char(t, c, b);
        assert(t.take(b) =~= s.take(b));
    }
}

proof fn lemma_trim_start_char(s: Seq<char>, c: char, a: int)
    requires
        0 <= a <= s.len(),
        forall|k: int| 0 <= k < a ==> #[trigger] s[k] == c,
        a < s.len() ==> s[a] != c,
    ensures
        trim_start_char(s, c) == s.skip(a),
    decreases a,
{
    if a == 0 {
        assert(s.skip(0) =~= s);
    } else {
        let t = s.drop_first();
        assert forall|k: int| 0 <= k < a - 1 implies #[trigger] t[k] == c by {
            assert(t[k] == s[k + 1]);
        }
        if a < s.len() {
            assert(t[a - 1] == s[a]);
        }
        lemma_trim_start_char(t, c, a - 1);
        assert(t.skip(a - 1) =~= s.skip(a));
    }
}

/// The URL of the API resource `path` below `base_url`.
pub fn api_endpoint(base_url: &str, path: &str) -> (r: String)
    ensures
        r@ == endpoint_spec(base_url@, path@),
{
    let b = chars_of(base_url);
    let p = chars_of(path);
    let mut end: usize = b.len();
    while end > 0 && b[end - 1] == '/'
        invariant
            end <= b@.len(),
            forall|k: int| end <= k < b@.len() ==> #[trigger] b@[k] == '/',
        decreases end,
    {
        end -= 1;
    }
    let mut start: usize = 0;
    while start < p.len() && p[start] == '/'
        invariant
            start <= p@.len(),
            forall|k: int| 0 <= k < start ==> #[trigger] p@[k] == '/',
        decreases p@.len() - start,
    {
        start += 1;
    }
    proof {
        lemma_trim_end_char(b@, '/', end as int);
        lemma_trim_start_char(p@, '/', start as int);
    }
    let mut out = slice_chars(&b, 0, end);
    out.push('/');
    let pl: usize = p.len();
    let tail = slice_chars(&p, start, pl);
    push_all(&mut out, &tail);
    assert(out@ =~= endpoint_spec(base_url@, path@));
    string_of(&out)
}

/// The path of a room: `/rooms/<room_id>`.
pub fn room_path(room_id: u64) -> (r: String)
    ensures
        r@ == "/rooms/"@ + decimal(room_id as nat),
{
    let mut v = chars_of("/rooms/");
    push_all(&mut v, &decimal_chars(room_id));
    string_of(&v)
}

/// The path of a message: `/rooms/<room_id>/messages/<message_id>`.
pub fn room_message_path(room_id: u64, message_id: u64) -> (r: String)
    ensures
        r@ == "/rooms/"@ + decimal(room_id as nat) + "/messages/"@ + decimal(message_id as nat),
{
    let mut v = chars_of("/rooms/");
    push_all(&mut v, &decimal_chars(room_id));
    push_all(&mut v, &chars_of("/messages/"));
    push_all(&mut v, &decimal_chars(message_id));
    string_of(&v)
}

/// The path of the files of a room: `/rooms/<room_id>/files`.
pub fn room_files_path(room_id: u64) -> (r: String)
    ensures
        r@ == "/rooms/"@ + decimal(room_id as nat) + "/files"@,
{
    let mut v = chars_of("/rooms/");
    push_all(&mut v, &decimal_chars(room_id));
    push_all(&mut v, &chars_of("/files"));
    string_of(&v)
}

/// The path of one file of a room: `/rooms/<room_id>/files/<file_id>`.
pub fn room_file_path(room_id: u64, file_id: u64) -> (r: String)
    ensures
        r@ == "/rooms/"@ + decimal(room_id as nat) + "/files/"@ + decimal(file_id as nat),
{
    let mut v = chars_of("/rooms/");
    push_all(&mut v, &decimal_chars(room_id));
    push_all(&mut v, &chars_of("/files/"));
    push_all(&mut v, &decimal_chars(file_id));
    string_of(&v)
}

/// The path that messages to a room are posted to: `/rooms/<room_id>/messages`. The
/// room id is used as it was given.
pub fn room_messages_path(room_id: &str) -> (r: String)
    ensures
        r@ == "/rooms/"@ + room_id@ + "/messages"@,
{
    let mut v = chars_of("/rooms/");
    push_all(&mut v, &chars_of(room_id));
    push_all(&mut v, &chars_of("/messages"));
    string_of(&v)
}

/// The text that precedes the id in the reply to a sent message.
pub const MESSAGE_ID_PREFIX: &'static str = "\"message_id\":\"";

/// The id of a sent message, read from the reply: the text between
/// `"message_id":"` and the next `"`.
pub fn extract_message_id(response_body: &str) -> (r: Result<String, CliError>)
    ensures
        match find_spec(response_body@, MESSAGE_ID_PREFIX@) {
            None => r is Err && is_general0(r->Err_0, "The response does not contain message_id."@),
            Some(start) => {
                let rest = response_body@.skip(start + MESSAGE_ID_PREFIX@.len());
                match find_spec(rest, seq!['"']) {
                    None => r is Err && is_general0(
                        r->Err_0,
                        "Failed to parse message_id from the response."@,
                    ),
                    Some(end) => r is Ok && r->Ok_0@ == rest.take(end),
                }
            },
        },
{
    let body = chars_of(response_body);
    let prefix = chars_of(MESSAGE_ID_PREFIX);
    let start = match find_str(&body, MESSAGE_ID_PREFIX) {
        Some(s) => s,
        None => return Err(general_error(msg0("The response does not contain message_id."))),
    };
    proof {
        lemma_find_from(body@, MESSAGE_ID_PREFIX@, 0);
        let ff = crate::text::find_from(body@, MESSAGE_ID_PREFIX@, 0);
        assert(crate::text::occurs_at(body@, MESSAGE_ID_PREFIX@, ff->0));
    }
    let bl: usize = body.len();
    let pl: usize = prefix.len();
    let rest = slice_chars(&body, start + pl, bl);
    assert(rest@ =~= response_body@.skip(start + MESSAGE_ID_PREFIX@.len()));
    let end = match find_char(&rest, '"') {
        Some(e) => e,
        None => return Err(general_error(msg0("Failed to parse message_id from the response."))),
    };
    proof {
        lemma_find_from(rest@, seq!['"'], 0);
        let ff = crate::text::find_from(rest@, seq!['"'], 0);
        assert(ff->0 < rest@.len());
    }
    let id = slice_chars(&rest, 0, end);
    assert(id@ =~= rest@.take(end as int));
    Ok(string_of(&id))
}

/// Refuses to upload a file that does not exist. `exists` tells whether a file is at
/// `path`.
pub fn check_upload_file(path: &str, exists: bool) -> (r: Result<(), CliError>)
    ensures
        exists ==> r is Ok,
        !exists ==> r is Err && is_general1(r->Err_0, "File not found: {path}"@, "path"@, path@),
{
    if !exists {
        return Err(general_error(msg1("File not found: {path}", "path", path.to_owned())));
    }
    Ok(())
}

/// Checks the size of a file to upload against the limit of 5 MB.
pub fn check_upload_size(path: &str, filesize: u64) -> (r: Result<(), CliError>)
    ensures
        filesize <= MAX_UPLOAD_BYTES ==> r is Ok,
        filesize > MAX_UPLOAD_BYTES ==> r is Err && is_general1(
            r->Err_0,
            "File size exceeds the 5 MB limit: {path}"@,
            "path"@,
            path@,
        ),
{
    if filesize > MAX_UPLOAD_BYTES {
        return Err(
            general_error(
                msg1("File size exceeds the 5 MB limit: {path}", "path", path.to_owned()),
            ),
        );
    }
    Ok(())
}

/// Refuses to write a downloaded file over an existing one unless `--force` is given.
/// `exists` tells whether a file is at `path`.
pub fn ensure_output_writable(path: &str, exists: bool, force: bool) -> (r: Result<(), CliError>)
    ensures
        exists && !force ==> r is Err && is_general1(
            r->Err_0,
            "Output file already exists. Use --force to overwrite: {path}"@,
            "path"@,
            path@,
        ),
        !(exists && !force) ==> r is Ok,
{
    if exists && !force {
        return Err(
            general_error(
                msg1(
                    "Output file already exists. Use --force to overwrite: {path}",
                    "path",
                    path.to_owned(),
                ),
            ),
        );
    }
    Ok(())
}

/// A contact of the user.
#[derive(Debug, PartialEq, Eq)]
pub struct ContactResponse {
    pub account_id: u64,
    pub room_id: Option<u64>,
    pub name: String,
    pub chatwork_id: String,
    pub organization_name: Option<String>,
    pub department: Option<String>,
    pub avatar_image_url: Option<String>,
}

fn copy_opt_string(s: &Option<String>) -> (r: Option<String>)
    ensures
        r == *s,
{
    match s {
        Some(t) => Some(t.clone()),
        None => None,
    }
}

impl ContactResponse {
    /// An equal contact.
    pub fn copy(&self) -> (r: Self)
        ensures
            r == *self,
    {
        ContactResponse {
            account_id: self.account_id,
            room_id: self.room_id,
            name: self.name.clone(),
            chatwork_id: self.chatwork_id.clone(),
            organization_name: copy_opt_string(&self.organization_name),
            department: copy_opt_string(&self.department),
            avatar_image_url: copy_opt_string(&self.avatar_image_url),
        }
    }
}

/// A contact is kept by `--aids` when no ids are given or its id is among them.
pub open spec fn keep_by_ids(ids: Seq<u64>, c: ContactResponse) -> bool {
    ids.len() == 0 || ids.contains(c.account_id)
}

/// The name query that filters contacts: the query trimmed, if anything is left.
pub open spec fn effective_query(q: Option<Seq<char>>) -> Option<Seq<char>> {
    match q {
        Some(t) => if trim_spec(t).len() > 0 {
            Some(trim_spec(t))
        } else {
            None
        },
        None => None,
    }
}

/// A contact is kept by `--name-query` when there is no query or its name contains it.
pub open spec fn keep_by_name(q: Option<Seq<char>>, c: ContactResponse) -> bool {
    match effective_query(q) {
        Some(t) => contains_spec(c.name@, t),
        None => true,
    }
}

proof fn lemma_filter_step<A>(s: Seq<A>, p: spec_fn(A) -> bool, i: int)
    requires
        0 <= i < s.len(),
    ensures
        s.take(i + 1).filter(p) == if p(s[i]) {
            s.take(i).filter(p).push(s[i])
        } else {
            s.take(i).filter(p)
        },
{
    reveal(Seq::filter);
    assert(s.take(i + 1).drop_last() =~= s.take(i));
}

/// Keeps the contacts whose account ids are among `account_ids`, in their order; all of
/// them when no ids are given.
pub fn filter_contacts_by_account_ids(contacts: Vec<ContactResponse>, account_ids: &[u64]) -> (r: Vec<
    ContactResponse,
>)
    ensures
        r@ == contacts@.filter(|c: ContactResponse| keep_by_ids(account_ids@, c)),
        account_ids@.len() == 0 ==> r@ == contacts@,
{
    let ghost p = |c: ContactResponse| keep_by_ids(account_ids@, c);
    if account_ids.len() == 0 {
        proof {
            lemma_filter_all(contacts@, p);
        }
        return contacts;
    }
    let mut kept: Vec<ContactResponse> = Vec::new();
    let mut i: usize = 0;
    assert(contacts@.take(0) =~= Seq::<ContactResponse>::empty());
    proof {
        reveal(Seq::filter);
    }
    while i < contacts.len()
        invariant
            i <= contacts@.len(),
            account_ids@.len() > 0,
            p == (|c: ContactResponse| keep_by_ids(account_ids@, c)),
            kept@ == contacts@.take(i as int).filter(p),
        decreases contacts@.len() - i,
    {
        let c = &contacts[i];
        let mut found = false;
        let mut j: usize = 0;
        while j < account_ids.len()
            invariant
                j <= account_ids@.len(),
                found <==> exists|k: int| 0 <= k < j && account_ids@[k] == c.account_id,
            decreases account_ids@.len() - j,
        {
            if account_ids[j] == c.account_id {
                found = true;
            }
            j += 1;
        }
        proof {
            lemma_filter_step(contacts@, p, i as int);
            if found {
                let k = choose|k: int| 0 <= k < j && account_ids@[k] == c.account_id;
                assert(account_ids@.contains(c.account_id));
            } else {
                assert(!account_ids@.contains(c.account_id));
            }
        }
        if found {
            kept.push(c.copy());
        }
        i += 1;
    }
    assert(contacts@.take(i as int) =~= contacts@);
    kept
}

/// A filter that keeps every item keeps the sequence as it is.
proof fn lemma_filter_all<A>(s: Seq<A>, p: spec_fn(A) -> bool)
    requires
        forall|x: A| #[trigger] p(x),
    ensures
        s.filter(p) == s,
    decreases s.len(),
{
    reveal(Seq::filter);
    if s.len() > 0 {
        lemma_filter_all(s.drop_last(), p);
        assert(s.drop_last().push(s.last()) =~= s);
    }
}

/// Keeps the contacts whose names contain the trimmed query, in their order; all of them
/// when there is no query or it is blank.
pub fn filter_contacts_by_name_query(contacts: Vec<ContactResponse>, name_query: Option<&str>) -> (r: Vec<
    ContactResponse,
>)
    ensures
        r@ == contacts@.filter(|c: ContactResponse| keep_by_name(crate::paths::opt_view(name_query), c)),
        effective_query(crate::paths::opt_view(name_query)) is None ==> r@ == contacts@,
{
    let ghost q = crate::paths::opt_view(name_query);
    let ghost p = |c: ContactResponse| keep_by_name(q, c);
    let query = match name_query {
        Some(t) => trim_str(t),
        None => {
            proof {
                lemma_filter_all(contacts@, p);
            }
            return contacts;
        },
    };
    if query.len() == 0 {
        proof {
            lemma_filter_all(contacts@, p);
        }
        return contacts;
    }
    let mut kept: Vec<ContactResponse> = Vec::new();
    let mut i: usize = 0;
    assert(contacts@.take(0) =~= Seq::<ContactResponse>::empty());
    proof {
        reveal(Seq::filter);
    }
    while i < contacts.len()
        invariant
            i <= contacts@.len(),
            effective_query(q) == Some(query@),
            p == (|c: ContactResponse| keep_by_name(q, c)),
            kept@ == contacts@.take(i as int).filter(p),
        decreases contacts@.len() - i,
    {
        let c = &contacts[i];
        let name = chars_of(c.name.as_str());
        let hit = contains(&name, &query);
        proof {
            lemma_filter_step(contacts@, p, i as int);
        }
        if hit {
            kept.push(c.copy());
        }
        i += 1;
    }
    assert(contacts@.take(i as int) =~= contacts@);
    kept
}

/// What `get contacts` shows: the contacts kept by both `--aids` and `--name-query`.
pub open spec fn contacts_filter_spec(
    contacts: Seq<ContactResponse>,
    ids: Seq<u64>,
    q: Option<Seq<char>>,
) -> Seq<ContactResponse> {
    contacts.filter(|c: ContactResponse| keep_by_ids(ids, c)).filter(
        |c: ContactResponse| keep_by_name(q, c),
    )
}

/// Filters contacts by account id, then by name.
pub fn filter_contacts(
    contacts: Vec<ContactResponse>,
    account_ids: &[u64],
    name_query: Option<&str>,
) -> (r: Vec<ContactResponse>)
    ensures
        r@ == contacts_filter_spec(contacts@, account_ids@, crate::paths::opt_view(name_query)),
{
    let contacts = filter_contacts_by_account_ids(contacts, account_ids);
    filter_contacts_by_name_query(contacts, name_query)
}

proof fn lemma_filter_and<A>(s: Seq<A>, a: spec_fn(A) -> bool, b: spec_fn(A) -> bool)
    ensures
        s.filter(a).filter(b) == s.filter(|x: A| a(x) && b(x)),
    decreases s.len(),
{
    reveal(Seq::filter);
    if s.len() > 0 {
        lemma_filter_and(s.drop_last(), a, b);
        let sub = s.drop_last().filter(a);
        if a(s.last()) {
            assert(sub.push(s.last()).drop_last() =~= sub);
        }
    }
}

/// Without `--aids` and without a (non-blank) `--name-query`, every contact is shown.
pub proof fn lemma_no_filter_keeps_all(contacts: Seq<ContactResponse>, q: Option<Seq<char>>)
    requires
        effective_query(q) is None,
    ensures
        contacts_filter_spec(contacts, Seq::empty(), q) == contacts,
{
    let a = |c: ContactResponse| keep_by_ids(Seq::<u64>::empty(), c);
    let b = |c: ContactResponse| keep_by_name(q, c);
    lemma_filter_all(contacts, a);
    lemma_filter_all(contacts, b);
}

/// Filtering the shown contacts again with the same options changes nothing.
pub proof fn lemma_filter_contacts_idempotent(
    contacts: Seq<ContactResponse>,
    ids: Seq<u64>,
    q: Option<Seq<char>>,
)
    ensures
        contacts_filter_spec(contacts_filter_spec(contacts, ids, q), ids, q)
            == contacts_filter_spec(contacts, ids, q),
{
    let a = |c: ContactResponse| keep_by_ids(ids, c);
    let b = |c: ContactResponse| keep_by_name(q, c);
    let ab = |c: ContactResponse| a(c) && b(c);
    let once = contacts_filter_spec(contacts, ids, q);
    lemma_filter_and(contacts, a, b);
    lemma_filter_and(once, a, b);
    lemma_filter_and(contacts, ab, ab);
    assert((|x: ContactResponse| ab(x) && ab(x)) =~= ab);
}

/// The text `t` occurs in `name` at some position.
pub open spec fn occurs_in(name: Seq<char>, t: Seq<char>) -> bool {
    exists|i: int| 0 <= i && i + t.len() <= name.len() && #[trigger] name.subrange(i, i + t.len()) == t
}

/// With a non-blank `--name-query q`, the contacts shown are exactly those whose name holds
/// the trimmed query somewhere (a name equal to it, or ending with it, included), in their
/// order: every such contact is kept, and every kept contact is one.
pub proof fn lemma_name_query_keeps(contacts: Seq<ContactResponse>, q: Seq<char>)
    requires
        trim_spec(q).len() > 0,
    ensures
        ({
            let t = trim_spec(q);
            let kept = contacts.filter(|c: ContactResponse| keep_by_name(Some(q), c));
            &&& forall|i: int|
                0 <= i < contacts.len() && occurs_in(contacts[i].name@, t) ==> kept.contains(
                    #[trigger] contacts[i],
                )
            &&& forall|j: int| 0 <= j < kept.len() ==> occurs_in(#[trigger] kept[j].name@, t)
            &&& forall|c: ContactResponse|
                c.name@ == t || (c.name@.len() >= t.len() && c.name@.skip(c.name@.len() - t.len())
                    == t) ==> #[trigger] keep_by_name(Some(q), c)
        }),
{
    let t = trim_spec(q);
    let p = |c: ContactResponse| keep_by_name(Some(q), c);
    assert forall|c: ContactResponse| #[trigger] keep_by_name(Some(q), c) == occurs_in(c.name@, t) by {
        if occurs_in(c.name@, t) {
            let i = choose|i: int|
                0 <= i && i + t.len() <= c.name@.len() && #[trigger] c.name@.subrange(i, i + t.len())
                    == t;
            assert(occurs_at(c.name@, t, i));
        }
        if contains_spec(c.name@, t) {
            let i = choose|i: int| occurs_at(c.name@, t, i);
            assert(c.name@.subrange(i, i + t.len()) == t);
        }
    }
    assert forall|i: int|
        0 <= i < contacts.len() && occurs_in(contacts[i].name@, t) implies contacts.filter(p).contains(
        #[trigger] contacts[i],
    ) by {
        contacts.lemma_filter_contains(p, i);
    }
    assert forall|j: int| 0 <= j < contacts.filter(p).len() implies occurs_in(
        #[trigger] contacts.filter(p)[j].name@,
        t,
    ) by {
        contacts.lemma_filter_pred(p, j);
    }
    assert forall|c: ContactResponse|
        c.name@ == t || (c.name@.len() >= t.len() && c.name@.skip(c.name@.len() - t.len()) == t)
        implies #[trigger] keep_by_name(Some(q), c) by {
        let n = c.name@;
        let i = n.len() - t.len();
        assert(n.subrange(i, i + t.len()) =~= n.skip(i));
        if n == t {
            assert(n.skip(0) =~= n);
        }
        assert(occurs_in(n, t));
    }
}

/// `get contacts` shows exactly the contacts that both filters keep, in their order: with
/// `--aids`, only contacts whose account id is one of them (all when none is given), and
/// of those only the ones that the name query keeps.
pub proof fn lemma_contacts_shown(contacts: Seq<ContactResponse>, ids: Seq<u64>, q: Option<Seq<char>>)
    ensures
        ({
            let shown = contacts_filter_spec(contacts, ids, q);
            &&& forall|i: int|
                0 <= i < contacts.len() && (ids.len() == 0 || ids.contains(contacts[i].account_id))
                    && keep_by_name(q, contacts[i]) ==> shown.contains(#[trigger] contacts[i])
            &&& forall|j: int|
                0 <= j < shown.len() ==> (ids.len() == 0 || ids.contains(#[trigger] shown[j].account_id))
                    && keep_by_name(q, shown[j])
        }),
{
    let a = |c: ContactResponse| keep_by_ids(ids, c);
    let b = |c: ContactResponse| keep_by_name(q, c);
    let ab = |c: ContactResponse| a(c) && b(c);
    lemma_filter_and(contacts, a, b);
    let shown = contacts.filter(ab);
    assert forall|i: int|
        0 <= i < contacts.len() && (ids.len() == 0 || ids.contains(contacts[i].account_id))
            && keep_by_name(q, contacts[i]) implies shown.contains(#[trigger] contacts[i]) by {
        contacts.lemma_filter_contains(ab, i);
    }
    assert forall|j: int| 0 <= j < shown.len() implies (ids.len() == 0 || ids.contains(
        #[trigger] shown[j].account_id,
    )) && keep_by_name(q, shown[j]) by {
        contacts.lemma_filter_pred(ab, j);
    }
}

} // verus!
