//! The plain-text form (`--format plain`) of the records that `get` shows: `key=value`
//! lines for one record, tab-separated rows under a header for a list.
use vstd::prelude::*;
use crate::api::ContactResponse;
use crate::template::strings_view;
use crate::text::{
    chars_of, decimal, decimal_chars, is_digit, lemma_decimal_digits, lemma_split_absent, lemma_split_piece, push_all, split_on, string_of,
};

verus! {

/// The account of the user.
#[derive(Debug)]
pub struct MeResponse {
    pub account_id: u64,
    pub room_id: Option<u64>,
    pub name: String,
    pub chatwork_id: String,
    pub organization_id: Option<u64>,
    pub organization_name: Option<String>,
    pub department: Option<String>,
    pub title: Option<String>,
    pub url: Option<String>,
    pub introduction: Option<String>,
    pub mail: Option<String>,
    pub tel_organization: Option<String>,
    pub tel_extension: Option<String>,
    pub tel_mobile: Option<String>,
    pub skype: Option<String>,
    pub facebook: Option<String>,
    pub twitter: Option<String>,
    pub avatar_image_url: Option<String>,
    pub login_mail: Option<String>,
}

/// The counts of unread messages, mentions and tasks.
#[derive(Debug)]
pub struct StatusResponse {
    pub unread_room_num: u64,
    pub mention_room_num: u64,
    pub mytask_room_num: u64,
    pub unread_num: u64,
    pub mention_num: u64,
    pub mytask_num: u64,
}

/// The account that uploaded a file.
#[derive(Debug)]
pub struct FilesEntryAccount {
    pub account_id: u64,
    pub name: String,
    pub avatar_image_url: String,
}

/// A file of a room.
#[derive(Debug)]
pub struct FilesEntryResponse {
    pub file_id: u64,
    pub account: FilesEntryAccount,
    pub message_id: String,
    pub filename: String,
    pub filesize: u64,
    pub upload_time: u64,
}

/// `key=value`.
pub open spec fn kv_line(key: Seq<char>, value: Seq<char>) -> Seq<char> {
    key + "="@ + value
}

/// The line `key=value` for a present text value, none for an absent one.
pub open spec fn opt_text_line(key: Seq<char>, value: Option<String>) -> Seq<Seq<char>> {
    match value {
        Some(v) => seq![kv_line(key, v@)],
        None => Seq::empty(),
    }
}

/// The line `key=value` for a present number, none for an absent one.
pub open spec fn opt_num_line(key: Seq<char>, value: Option<u64>) -> Seq<Seq<char>> {
    match value {
        Some(n) => seq![kv_line(key, decimal(n as nat))],
        None => Seq::empty(),
    }
}

/// The plain form of the user's account: the fields that are always there, then each
/// optional field that is present.
pub open spec fn me_lines_spec(me: MeResponse) -> Seq<Seq<char>> {
    seq![
        kv_line("account_id"@, decimal(me.account_id as nat)),
        kv_line("name"@, me.name@),
        kv_line("chatwork_id"@, me.chatwork_id@),
    ] + opt_num_line("room_id"@, me.room_id) + opt_num_line("organization_id"@, me.organization_id)
        + opt_text_line("organization_name"@, me.organization_name) + opt_text_line(
        "department"@,
        me.department,
    ) + opt_text_line("title"@, me.title) + opt_text_line("url"@, me.url) + opt_text_line(
        "introduction"@,
        me.introduction,
    ) + opt_text_line("mail"@, me.mail) + opt_text_line("login_mail"@, me.login_mail)
        + opt_text_line("tel_organization"@, me.tel_organization) + opt_text_line(
        "tel_extension"@,
        me.tel_extension,
    ) + opt_text_line("tel_mobile"@, me.tel_mobile) + opt_text_line("skype"@, me.skype)
        + opt_text_line("facebook"@, me.facebook) + opt_text_line("twitter"@, me.twitter)
        + opt_text_line("avatar_image_url"@, me.avatar_image_url)
}

fn push_kv(lines: &mut Vec<String>, key: &str, value: &Vec<char>)
    ensures
        strings_view(final(lines)@) == strings_view(old(lines)@).push(kv_line(key@, value@)),
{
    let mut v = chars_of(key);
    v.push('=');
    push_all(&mut v, value);
    proof {
        reveal_strlit("=");
    }
    assert(v@ =~= kv_line(key@, value@));
    let ghost before = lines@;
    lines.push(string_of(&v));
    assert(strings_view(lines@) =~= strings_view(before).push(kv_line(key@, value@)));
}

fn push_opt_text(lines: &mut Vec<String>, key: &str, value: &Option<String>)
    ensures
        strings_view(final(lines)@) == strings_view(old(lines)@) + opt_text_line(key@, *value),
{
    match value {
        Some(v) => {
            push_kv(lines, key, &chars_of(v.as_str()));
        },
        None => {
            assert(strings_view(lines@) =~= strings_view(lines@) + Seq::<Seq<char>>::empty());
        },
    }
}

fn push_opt_num(lines: &mut Vec<String>, key: &str, value: Option<u64>)
    ensures
        strings_view(final(lines)@) == strings_view(old(lines)@) + opt_num_line(key@, value),
{
    match value {
        Some(n) => {
            push_kv(lines, key, &decimal_chars(n));
        },
        None => {
            assert(strings_view(lines@) =~= strings_view(lines@) + Seq::<Seq<char>>::empty());
        },
    }
}

/// The plain form of the user's account.
pub fn me_plain_lines(me: &MeResponse) -> (r: Vec<String>)
    ensures
        strings_view(r@) == me_lines_spec(*me),
{
    let mut lines: Vec<String> = Vec::new();
    push_kv(&mut lines, "account_id", &decimal_chars(me.account_id));
    push_kv(&mut lines, "name", &chars_of(me.name.as_str()));
    push_kv(&mut lines, "chatwork_id", &chars_of(me.chatwork_id.as_str()));
    assert(strings_view(lines@) =~= seq![
        kv_line("account_id"@, decimal(me.account_id as nat)),
        kv_line("name"@, me.name@),
        kv_line("chatwork_id"@, me.chatwork_id@),
    ]);
    push_opt_num(&mut lines, "room_id", me.room_id);
    push_opt_num(&mut lines, "organization_id", me.organization_id);
    push_opt_text(&mut lines, "organization_name", &me.organization_name);
    push_opt_text(&mut lines, "department", &me.department);
    push_opt_text(&mut lines, "title", &me.title);
    push_opt_text(&mut lines, "url", &me.url);
    push_opt_text(&mut lines, "introduction", &me.introduction);
    push_opt_text(&mut lines, "mail", &me.mail);
    push_opt_text(&mut lines, "login_mail", &me.login_mail);
    push_opt_text(&mut lines, "tel_organization", &me.tel_organization);
    push_opt_text(&mut lines, "tel_extension", &me.tel_extension);
    push_opt_text(&mut lines, "tel_mobile", &me.tel_mobile);
    push_opt_text(&mut lines, "skype", &me.skype);
    push_opt_text(&mut lines, "facebook", &me.facebook);
    push_opt_text(&mut lines, "twitter", &me.twitter);
    push_opt_text(&mut lines, "avatar_image_url", &me.avatar_image_url);
    lines
}

/// The plain form of the counts.
pub open spec fn status_lines_spec(s: StatusResponse) -> Seq<Seq<char>> {
    seq![
        kv_line("unread_room_num"@, decimal(s.unread_room_num as nat)),
        kv_line("mention_room_num"@, decimal(s.mention_room_num as nat)),
        kv_line("mytask_room_num"@, decimal(s.mytask_room_num as nat)),
        kv_line("unread_num"@, decimal(s.unread_num as nat)),
        kv_line("mention_num"@, decimal(s.mention_num as nat)),
        kv_line("mytask_num"@, decimal(s.mytask_num as nat)),
    ]
}

/// The plain form of the counts.
pub fn status_plain_lines(status: &StatusResponse) -> (r: Vec<String>)
    ensures
        strings_view(r@) == status_lines_spec(*status),
{
    let mut lines: Vec<String> = Vec::new();
    push_kv(&mut lines, "unread_room_num", &decimal_chars(status.unread_room_num));
    push_kv(&mut lines, "mention_room_num", &decimal_chars(status.mention_room_num));
    push_kv(&mut lines, "mytask_room_num", &decimal_chars(status.mytask_room_num));
    push_kv(&mut lines, "unread_num", &decimal_chars(status.unread_num));
    push_kv(&mut lines, "mention_num", &decimal_chars(status.mention_num));
    push_kv(&mut lines, "mytask_num", &decimal_chars(status.mytask_num));
    assert(strings_view(lines@) =~= status_lines_spec(*status));
    lines
}

/// The fields of a row, separated by tabs.
pub open spec fn row6(
    a: Seq<char>,
    b: Seq<char>,
    c: Seq<char>,
    d: Seq<char>,
    e: Seq<char>,
    f: Seq<char>,
) -> Seq<char> {
    a + "\t"@ + b + "\t"@ + c + "\t"@ + d + "\t"@ + e + "\t"@ + f
}

/// A present text, or the empty text.
pub open spec fn text_or_empty(s: Option<String>) -> Seq<char> {
    match s {
        Some(t) => t@,
        None => Seq::empty(),
    }
}

/// A present number in decimal, or the empty text.
pub open spec fn num_or_empty(n: Option<u64>) -> Seq<char> {
    match n {
        Some(v) => decimal(v as nat),
        None => Seq::empty(),
    }
}

/// The header of the plain list of contacts.
pub const CONTACTS_HEADER: &'static str = "account_id\tchatwork_id\tname\torganization_name\tdepartment\troom_id";

/// The header of the plain list of files.
pub const FILES_HEADER: &'static str = "file_id\tfilename\tfilesize\tupload_time\taccount_id\taccount_name";

/// The row of a contact.
pub open spec fn contact_row(c: ContactResponse) -> Seq<char> {
    row6(
        decimal(c.account_id as nat),
        c.chatwork_id@,
        c.name@,
        text_or_empty(c.organization_name),
        text_or_empty(c.department),
        num_or_empty(c.room_id),
    )
}

/// The row of a file.
pub open spec fn file_row(f: FilesEntryResponse) -> Seq<char> {
    row6(
        decimal(f.file_id as nat),
        f.filename@,
        decimal(f.filesize as nat),
        decimal(f.upload_time as nat),
        decimal(f.account.account_id as nat),
        f.account.name@,
    )
}

fn text_chars(s: &Option<String>) -> (r: Vec<char>)
    ensures
        r@ == text_or_empty(*s),
{
    match s {
        Some(t) => chars_of(t.as_str()),
        None => Vec::new(),
    }
}

fn num_chars(n: Option<u64>) -> (r: Vec<char>)
    ensures
        r@ == num_or_empty(n),
{
    match n {
        Some(v) => decimal_chars(v),
        None => Vec::new(),
    }
}

fn row_of(a: &Vec<char>, b: &Vec<char>, c: &Vec<char>, d: &Vec<char>, e: &Vec<char>, f: &Vec<char>) -> (r: String)
    ensures
        r@ == row6(a@, b@, c@, d@, e@, f@),
{
    let mut v = a.clone();
    v.push('\t');
    push_all(&mut v, b);
    v.push('\t');
    push_all(&mut v, c);
    v.push('\t');
    push_all(&mut v, d);
    v.push('\t');
    push_all(&mut v, e);
    v.push('\t');
    push_all(&mut v, f);
    proof {
        reveal_strlit("\t");
    }
    assert(v@ =~= row6(a@, b@, c@, d@, e@, f@));
    string_of(&v)
}

/// The plain list of contacts: the header, then one row per contact.
pub fn contacts_plain_lines(contacts: &Vec<ContactResponse>) -> (r: Vec<String>)
    ensures
        strings_view(r@) == seq![CONTACTS_HEADER@] + contacts@.map_values(
            |c: ContactResponse| contact_row(c),
        ),
{
    let mut lines: Vec<String> = Vec::new();
    lines.push(CONTACTS_HEADER.to_owned());
    let mut i: usize = 0;
    while i < contacts.len()
        invariant
            i <= contacts@.len(),
            strings_view(lines@) == seq![CONTACTS_HEADER@] + contacts@.take(i as int).map_values(
                |c: ContactResponse| contact_row(c),
            ),
        decreases contacts@.len() - i,
    {
        let c = &contacts[i];
        let row = row_of(
            &decimal_chars(c.account_id),
            &chars_of(c.chatwork_id.as_str()),
            &chars_of(c.name.as_str()),
            &text_chars(&c.organization_name),
            &text_chars(&c.department),
            &num_chars(c.room_id),
        );
        let ghost before = lines@;
        lines.push(row);
        i += 1;
        assert(strings_view(lines@) =~= seq![CONTACTS_HEADER@] + contacts@.take(i as int).map_values(
            |c: ContactResponse| contact_row(c),
        )) by {
            assert(strings_view(lines@) =~= strings_view(before).push(contact_row(*c)));
        }
    }
    assert(contacts@.take(i as int) =~= contacts@);
    lines
}

/// The plain list of files: the header, then one row per file.
pub fn files_plain_lines(files: &Vec<FilesEntryResponse>) -> (r: Vec<String>)
    ensures
        strings_view(r@) == seq![FILES_HEADER@] + files@.map_values(
            |f: FilesEntryResponse| file_row(f),
        ),
{
    let mut lines: Vec<String> = Vec::new();
    lines.push(FILES_HEADER.to_owned());
    let mut i: usize = 0;
    while i < files.len()
        invariant
            i <= files@.len(),
            strings_view(lines@) == seq![FILES_HEADER@] + files@.take(i as int).map_values(
                |f: FilesEntryResponse| file_row(f),
            ),
        decreases files@.len() - i,
    {
        let f = &files[i];
        let row = row_of(
            &decimal_chars(f.file_id),
            &chars_of(f.filename.as_str()),
            &decimal_chars(f.filesize),
            &decimal_chars(f.upload_time),
            &decimal_chars(f.account.account_id),
            &chars_of(f.account.name.as_str()),
        );
        let ghost before = lines@;
        lines.push(row);
        i += 1;
        assert(strings_view(lines@) =~= seq![FILES_HEADER@] + files@.take(i as int).map_values(
            |f: FilesEntryResponse| file_row(f),
        )) by {
            assert(strings_view(lines@) =~= strings_view(before).push(file_row(*f)));
        }
    }
    assert(files@.take(i as int) =~= files@);
    lines
}

/// A JSON value below the top level, as the plain output shows it.
#[derive(Debug)]
pub enum PlainScalar {
    /// `null`.
    Null,
    /// `true` or `false`.
    Bool(bool),
    /// A string, or a number, array or object already written out as JSON text.
    Text(String),
}

/// A JSON value at the top level of a reply.
#[derive(Debug)]
pub enum PlainValue {
    /// An object: its members in order.
    Object(Vec<(String, PlainScalar)>),
    /// Any other value.
    Scalar(PlainScalar),
}

/// The plain text of a value: empty for `null`.
pub open spec fn scalar_text(v: PlainScalar) -> Seq<char> {
    match v {
        PlainScalar::Null => Seq::empty(),
        PlainScalar::Bool(b) => if b {
            "true"@
        } else {
            "false"@
        },
        PlainScalar::Text(t) => t@,
    }
}

/// The `key=value` lines of the members of an object that are not `null`.
pub open spec fn member_lines(entries: Seq<(String, PlainScalar)>) -> Seq<Seq<char>>
    decreases entries.len(),
{
    if entries.len() == 0 {
        Seq::empty()
    } else {
        let rest = member_lines(entries.drop_last());
        let e = entries.last();
        if e.1 is Null {
            rest
        } else {
            rest.push(kv_line(e.0@, scalar_text(e.1)))
        }
    }
}

/// The plain form of a reply: one `key=value` line per member of an object that is not
/// `null`, or the one line of any other value.
pub open spec fn value_lines_spec(v: PlainValue) -> Seq<Seq<char>> {
    match v {
        PlainValue::Object(entries) => member_lines(entries@),
        PlainValue::Scalar(s) => seq![scalar_text(s)],
    }
}

fn scalar_chars(v: &PlainScalar) -> (r: Vec<char>)
    ensures
        r@ == scalar_text(*v),
{
    match v {
        PlainScalar::Null => Vec::new(),
        PlainScalar::Bool(b) => if *b {
            chars_of("true")
        } else {
            chars_of("false")
        },
        PlainScalar::Text(t) => chars_of(t.as_str()),
    }
}

/// The plain form of a reply.
pub fn value_plain_lines(value: &PlainValue) -> (r: Vec<String>)
    ensures
        strings_view(r@) == value_lines_spec(*value),
{
    let mut lines: Vec<String> = Vec::new();
    match value {
        PlainValue::Object(entries) => {
            let mut i: usize = 0;
            while i < entries.len()
                invariant
                    i <= entries@.len(),
                    strings_view(lines@) == member_lines(entries@.take(i as int)),
                decreases entries@.len() - i,
            {
                let e = &entries[i];
                proof {
                    assert(entries@.take(i + 1).drop_last() =~= entries@.take(i as int));
                    assert(entries@.take(i + 1).last() == *e);
                }
                match &e.1 {
                    PlainScalar::Null => {},
                    _ => {
                        push_kv(&mut lines, e.0.as_str(), &scalar_chars(&e.1));
                    },
                }
                i += 1;
            }
            assert(entries@.take(i as int) =~= entries@);
        },
        PlainValue::Scalar(v) => {
            lines.push(string_of(&scalar_chars(v)));
            assert(strings_view(lines@) =~= seq![scalar_text(*v)]);
        },
    }
    lines
}

/// `s` holds no tab.
pub open spec fn no_tab(s: Seq<char>) -> bool {
    forall|i: int| 0 <= i < s.len() ==> s[i] != '\t'
}

proof fn lemma_decimal_no_tab(n: nat)
    ensures
        no_tab(decimal(n)),
{
    lemma_decimal_digits(n);
    assert forall|i: int| 0 <= i < decimal(n).len() implies decimal(n)[i] != '\t' by {
        assert(is_digit(decimal(n)[i]));
    }
}

proof fn lemma_row6_split(
    a: Seq<char>,
    b: Seq<char>,
    c: Seq<char>,
    d: Seq<char>,
    e: Seq<char>,
    f: Seq<char>,
)
    requires
        no_tab(a),
        no_tab(b),
        no_tab(c),
        no_tab(d),
        no_tab(e),
        no_tab(f),
    ensures
        split_on(row6(a, b, c, d, e, f), '\t') == seq![a, b, c, d, e, f],
{
    reveal_strlit("\t");
    let t = seq!['\t'];
    assert("\t"@ =~= t);
    let r5 = f;
    let r4 = e + t + r5;
    let r3 = d + t + r4;
    let r2 = c + t + r3;
    let r1 = b + t + r2;
    let r0 = a + t + r1;
    assert(row6(a, b, c, d, e, f) =~= r0);
    lemma_split_absent(r5, '\t');
    lemma_split_piece(e, '\t', r5);
    lemma_split_piece(d, '\t', r4);
    lemma_split_piece(c, '\t', r3);
    lemma_split_piece(b, '\t', r2);
    lemma_split_piece(a, '\t', r1);
    assert(split_on(r0, '\t') =~= seq![a, b, c, d, e, f]);
}

/// When no text of a contact holds a tab, its plain row splits at tabs into six columns:
/// the account id, the Chatwork id, the name, the organization name, the department (each
/// of these two empty only when the contact has none), and the room id (empty when there
/// is none).
pub proof fn lemma_contact_row_columns(c: ContactResponse)
    requires
        no_tab(c.chatwork_id@),
        no_tab(c.name@),
        no_tab(text_or_empty(c.organization_name)),
        no_tab(text_or_empty(c.department)),
    ensures
        split_on(contact_row(c), '\t') == seq![
            decimal(c.account_id as nat),
            c.chatwork_id@,
            c.name@,
            match c.organization_name {
                Some(o) => o@,
                None => Seq::<char>::empty(),
            },
            match c.department {
                Some(d) => d@,
                None => Seq::<char>::empty(),
            },
            match c.room_id {
                Some(r) => decimal(r as nat),
                None => Seq::<char>::empty(),
            },
        ],
{
    lemma_decimal_no_tab(c.account_id as nat);
    if let Some(r) = c.room_id {
        lemma_decimal_no_tab(r as nat);
    }
    assert(no_tab(num_or_empty(c.room_id)));
    let org = text_or_empty(c.organization_name);
    let dept = text_or_empty(c.department);
    lemma_row6_split(
        decimal(c.account_id as nat),
        c.chatwork_id@,
        c.name@,
        org,
        dept,
        num_or_empty(c.room_id),
    );
}

/// When neither the file's name nor its uploader's name holds a tab, its plain row splits
/// at tabs into six columns: the file id, the file name, the size, the upload time, the
/// uploader's account id and the uploader's name.
pub proof fn lemma_file_row_columns(f: FilesEntryResponse)
    requires
        no_tab(f.filename@),
        no_tab(f.account.name@),
    ensures
        split_on(file_row(f), '\t') == seq![
            decimal(f.file_id as nat),
            f.filename@,
            decimal(f.filesize as nat),
            decimal(f.upload_time as nat),
            decimal(f.account.account_id as nat),
            f.account.name@,
        ],
{
    lemma_decimal_no_tab(f.file_id as nat);
    lemma_decimal_no_tab(f.filesize as nat);
    lemma_decimal_no_tab(f.upload_time as nat);
    lemma_decimal_no_tab(f.account.account_id as nat);
    lemma_row6_split(
        decimal(f.file_id as nat),
        f.filename@,
        decimal(f.filesize as nat),
        decimal(f.upload_time as nat),
        decimal(f.account.account_id as nat),
        f.account.name@,
    );
}

} // verus!
