//! Fetching files: whom to ask, and how the server's reply is read.
//!
//! A reply is either a multipart body holding files, a JSON list of the files
//! waiting on the server (decoded by the caller into [`FileInfo`]s), or one
//! raw file.
use vstd::prelude::*;

use crate::decimal::{decimal, decimal_chars};
use crate::text::{
    chars_of, contains, find, find_chars, lines, lines_chars, push_all, push_str, split,
    split_chars, starts_with_ascii_lower, starts_with_ascii_lower_chars, string_of, subvec, trim,
    trim_chars, trim_end_crlf, trim_end_crlf_chars, trim_quote_chars, trim_quotes,
};

verus! {

// ---------------------------------------------------------------------------
// Whom to ask
// ---------------------------------------------------------------------------

/// The senders to fetch from: the mailbox (the empty sender) when none is
/// named, else each named sender in order.
pub open spec fn receive_targets_of(senders: Seq<Seq<char>>) -> Seq<Seq<char>> {
    if senders.len() == 0 {
        seq![Seq::<char>::empty()]
    } else {
        senders
    }
}

/// The senders to fetch from, in order.
pub fn receive_targets(senders: &Vec<String>) -> (r: Vec<String>)
    ensures
        r.deep_view() == receive_targets_of(senders.deep_view()),
{
    if senders.len() == 0 {
        let mut r: Vec<String> = Vec::new();
        r.push(String::new());
        assert(r.deep_view() =~= seq![Seq::<char>::empty()]);
        r
    } else {
        let r = senders.clone();
        assert(r.deep_view() =~= senders.deep_view()) by {
            assert forall|i: int| 0 <= i < r.len() implies r[i]@ == senders[i]@ by {
                assert(vstd::pervasive::cloned::<String>(senders[i], r[i]));
            }
        }
        r
    }
}

/// How a sender is named in messages: `MailBox` for the mailbox.
pub open spec fn sender_label_of(sender: Seq<char>) -> Seq<char> {
    if sender.len() == 0 {
        "MailBox"@
    } else {
        sender
    }
}

pub fn sender_label(sender: &str) -> (r: String)
    ensures
        r@ == sender_label_of(sender@),
{
    let s = chars_of(sender);
    if s.len() == 0 {
        string_of(&chars_of("MailBox"))
    } else {
        string_of(&s)
    }
}

// ---------------------------------------------------------------------------
// What kind of reply
// ---------------------------------------------------------------------------

/// The content type of a reply; raw bytes when the reply names none.
pub open spec fn content_type_of(header: Option<Seq<char>>) -> Seq<char> {
    match header {
        Some(h) => h,
        None => "application/octet-stream"@,
    }
}

/// The content type of a reply, from its `content-type` header if readable.
pub fn content_type(header: Option<&str>) -> (r: String)
    ensures
        r@ == content_type_of(match header {
            Some(h) => Some(h@),
            None => None,
        }),
{
    match header {
        Some(h) => string_of(&chars_of(h)),
        None => string_of(&chars_of("application/octet-stream")),
    }
}

/// A reply is multipart when its content type mentions `multipart`.
pub fn is_multipart(content_type: &str) -> (b: bool)
    ensures
        b == contains(content_type@, "multipart"@),
{
    let ct = chars_of(content_type);
    let p = chars_of("multipart");
    find_chars(&ct, &p).is_some()
}

/// How a successful reply is handled.
#[derive(Clone, Copy, Debug, PartialEq, Eq, Structural)]
pub enum ReplyKind {
    /// A multipart body: each of its files is saved.
    Multipart,
    /// A JSON list of the files waiting on the server: each is reported.
    Listing,
    /// One raw file: it is saved.
    RawFile,
}

/// A multipart content type decides first; otherwise a body that reads as a
/// JSON file list (`listing_parsed`) is a listing, and anything else is one
/// raw file.
pub open spec fn reply_kind_of(content_type: Seq<char>, listing_parsed: bool) -> ReplyKind {
    if contains(content_type, "multipart"@) {
        ReplyKind::Multipart
    } else if listing_parsed {
        ReplyKind::Listing
    } else {
        ReplyKind::RawFile
    }
}

/// A reply whose content type has `multipart` somewhere in it is read as
/// multipart; any other reply whose body reads as a JSON file list is a
/// listing, whatever else its content type says; the rest is one raw file.
pub proof fn lemma_reply_kind(content_type: Seq<char>, listing_parsed: bool)
    ensures
        (exists|k: int|
            0 <= k && k + 9 <= content_type.len() && #[trigger] content_type.subrange(k, k + 9)
                == "multipart"@) ==> reply_kind_of(content_type, listing_parsed)
            == ReplyKind::Multipart,
        (forall|k: int|
            0 <= k && k + 9 <= content_type.len() ==> #[trigger] content_type.subrange(k, k + 9)
                != "multipart"@) ==> reply_kind_of(content_type, listing_parsed) == (
        if listing_parsed {
            ReplyKind::Listing
        } else {
            ReplyKind::RawFile
        }),
{
    reveal_strlit("multipart");
    crate::text::lemma_find_from(content_type, "multipart"@, 0);
    if exists|k: int|
        0 <= k && k + 9 <= content_type.len() && #[trigger] content_type.subrange(k, k + 9)
            == "multipart"@ {
        let k = choose|k: int|
            0 <= k && k + 9 <= content_type.len() && #[trigger] content_type.subrange(k, k + 9)
                == "multipart"@;
        assert(crate::text::matches_at(content_type, "multipart"@, k));
    }
    if find(content_type, "multipart"@) is Some {
        let j = find(content_type, "multipart"@).unwrap();
        assert(content_type.subrange(j, j + 9) == "multipart"@);
    }
}

/// How a successful reply of type `content_type` is handled, given whether
/// its body reads as a JSON file list.
pub fn reply_kind(content_type: &str, listing_parsed: bool) -> (k: ReplyKind)
    ensures
        k == reply_kind_of(content_type@, listing_parsed),
{
    if is_multipart(content_type) {
        ReplyKind::Multipart
    } else if listing_parsed {
        ReplyKind::Listing
    } else {
        ReplyKind::RawFile
    }
}

/// The name a raw file is saved under: the `X-File-Name` header, or
/// `received_file`.
pub fn saved_file_name(header: Option<String>) -> (r: String)
    ensures
        r@ == (match header {
            Some(h) => h@,
            None => "received_file"@,
        }),
{
    match header {
        Some(h) => h,
        None => string_of(&chars_of("received_file")),
    }
}

/// One file waiting on the server, as listed by a JSON reply.
#[derive(Debug, Clone)]
pub struct FileInfo {
    pub name: String,
    pub size: u64,
}

/// `Remote Unsynced: <name> (size: <size>)`.
pub open spec fn unsynced_line_of(name: Seq<char>, size: u64) -> Seq<char> {
    "Remote Unsynced: "@ + name + " (size: "@ + decimal(size as nat) + ")"@
}

impl FileInfo {
    /// The line that reports this file.
    pub fn unsynced_line(&self) -> (r: String)
        ensures
            r@ == unsynced_line_of(self.name@, self.size),
    {
        let mut out = chars_of("Remote Unsynced: ");
        push_str(&mut out, self.name.as_str());
        push_str(&mut out, " (size: ");
        let digits = decimal_chars(self.size);
        push_all(&mut out, &digits);
        push_str(&mut out, ")");
        string_of(&out)
    }
}

// ---------------------------------------------------------------------------
// Multipart replies
// ---------------------------------------------------------------------------

/// The text of a reply body: UTF-8, with every ill-formed sequence replaced
/// by U+FFFD (`String::from_utf8_lossy`).
pub uninterp spec fn utf8_lossy(bytes: Seq<u8>) -> Seq<char>;

/// Decodes a reply body (`String::from_utf8_lossy`).
/// Trusted: the result is named `utf8_lossy` of the bytes; the std
/// documentation states that valid UTF-8 is decoded as it is, which the
/// second clause says with vstd's `decode_utf8`. Which replacement characters
/// stand for ill-formed input is not stated.
#[verifier::external_body]
fn decode_utf8_lossy(bytes: &[u8]) -> (s: String)
    ensures
        s@ == utf8_lossy(bytes@),
        vstd::utf8::valid_utf8(bytes@) ==> s@ == vstd::utf8::decode_utf8(bytes@),
{
    String::from_utf8_lossy(bytes).into_owned()
}

/// The boundary named by a multipart content type: what follows the first
/// `boundary=` up to the next one, trimmed of white space and then of
/// double quotes.
pub open spec fn boundary_of(content_type: Seq<char>) -> Option<Seq<char>> {
    let pieces = split(content_type, "boundary="@);
    if pieces.len() >= 2 {
        Some(trim_quotes(trim(pieces[1])))
    } else {
        None
    }
}

/// The sections of a multipart body: what lies between the `--<boundary>`
/// markers, the text before the first marker left out.
pub open spec fn sections_of(text: Seq<char>, boundary: Seq<char>) -> Seq<Seq<char>> {
    split(text, "--"@ + boundary).drop_first()
}

/// A section that holds no file: empty, or `--` (the closing marker) once
/// trimmed.
pub open spec fn section_skipped(s: Seq<char>) -> bool {
    trim(s) == "--"@ || s.len() == 0
}

/// A section can be read: it holds no file, or its headers end with a blank
/// line (`"\r\n\r\n"`).
pub open spec fn section_well_formed(s: Seq<char>) -> bool {
    section_skipped(s) || find(s, "\r\n\r\n"@) is Some
}

/// The first header line that starts, in any ASCII case, with
/// `content-disposition`.
pub open spec fn first_disposition(ls: Seq<Seq<char>>) -> Option<Seq<char>>
    decreases ls.len(),
{
    if ls.len() == 0 {
        None
    } else if starts_with_ascii_lower(ls[0], "content-disposition"@) {
        Some(ls[0])
    } else {
        first_disposition(ls.drop_first())
    }
}

/// The file name of a disposition line: what follows the first `filename=`
/// up to the next one, trimmed of white space and then of double quotes.
pub open spec fn disposition_filename(line: Seq<char>) -> Option<Seq<char>> {
    let pieces = split(line, "filename="@);
    if pieces.len() >= 2 {
        Some(trim_quotes(trim(pieces[1])))
    } else {
        None
    }
}

/// The name a section's file is saved under: that of its first disposition
/// line, or `unknown_file`.
pub open spec fn part_filename(headers: Seq<char>) -> Seq<char> {
    match first_disposition(lines(headers)) {
        Some(line) => match disposition_filename(line) {
            Some(name) => name,
            None => "unknown_file"@,
        },
        None => "unknown_file"@,
    }
}

/// A file found in a multipart body, as plain values.
pub struct PartModel {
    pub filename: Seq<char>,
    pub data: Seq<char>,
}

/// The file of a readable section: named from the headers before the blank
/// line, holding what follows it without its trailing `"\r\n"`s.
pub open spec fn part_of(s: Seq<char>) -> PartModel {
    let end = find(s, "\r\n\r\n"@).unwrap();
    PartModel { filename: part_filename(s.take(end)), data: trim_end_crlf(s.skip(end + 4)) }
}

/// The files of the sections `ss`, in order.
pub open spec fn parts_of(ss: Seq<Seq<char>>) -> Seq<PartModel>
    decreases ss.len(),
{
    if ss.len() == 0 {
        Seq::empty()
    } else if section_skipped(ss[0]) {
        parts_of(ss.drop_first())
    } else {
        seq![part_of(ss[0])] + parts_of(ss.drop_first())
    }
}

/// Why a multipart reply cannot be read.
#[derive(Clone, Copy, Debug, PartialEq, Eq, Structural)]
pub enum MultipartError {
    /// The content type names no boundary.
    NoBoundary,
}

/// A multipart reply can be read: it names no boundary (and is refused), or
/// each of its sections can be read.
pub open spec fn multipart_well_formed(content_type: Seq<char>, text: Seq<char>) -> bool {
    match boundary_of(content_type) {
        None => true,
        Some(b) => forall|i: int|
            0 <= i < sections_of(text, b).len() ==> section_well_formed(
                #[trigger] sections_of(text, b)[i],
            ),
    }
}

/// The files of a multipart reply of type `content_type` and body `text`.
pub open spec fn multipart_files(content_type: Seq<char>, text: Seq<char>) -> Result<
    Seq<PartModel>,
    MultipartError,
> {
    match boundary_of(content_type) {
        None => Err(MultipartError::NoBoundary),
        Some(b) => Ok(parts_of(sections_of(text, b))),
    }
}

/// A file found in a multipart body.
#[derive(Debug, Clone)]
pub struct ReceivedPart {
    /// The name it is saved under.
    pub filename: String,
    /// Its contents.
    pub data: String,
}

impl View for ReceivedPart {
    type V = PartModel;

    open spec fn view(&self) -> PartModel {
        PartModel { filename: self.filename@, data: self.data@ }
    }
}

pub open spec fn parts_view(v: Seq<ReceivedPart>) -> Seq<PartModel> {
    v.map_values(|p: ReceivedPart| p@)
}

pub open spec fn files_view(r: Result<Vec<ReceivedPart>, MultipartError>) -> Result<
    Seq<PartModel>,
    MultipartError,
> {
    match r {
        Ok(v) => Ok(parts_view(v@)),
        Err(e) => Err(e),
    }
}

/// What follows the first occurrence of `key` up to the next one, trimmed of
/// white space and then of double quotes.
fn quoted_value_after(v: &Vec<char>, key: &str) -> (r: Option<Vec<char>>)
    requires
        key@.len() > 0,
    ensures
        r is None <==> split(v@, key@).len() < 2,
        r matches Some(x) ==> x@ == trim_quotes(trim(split(v@, key@)[1])),
{
    let k = chars_of(key);
    let pieces = split_chars(v, &k);
    if pieces.len() >= 2 {
        assert(pieces[1].deep_view() =~= pieces[1]@);
        let t = trim_chars(&pieces[1]);
        Some(trim_quote_chars(&t))
    } else {
        None
    }
}

/// The boundary named by a content type (executable).
pub fn multipart_boundary(content_type: &str) -> (r: Option<String>)
    ensures
        r is None <==> boundary_of(content_type@) is None,
        r matches Some(b) ==> boundary_of(content_type@) == Some(b@),
{
    proof {
        reveal_strlit("boundary=");
    }
    let ct = chars_of(content_type);
    match quoted_value_after(&ct, "boundary=") {
        Some(b) => Some(string_of(&b)),
        None => None,
    }
}

fn part_filename_chars(headers: &Vec<char>) -> (r: Vec<char>)
    ensures
        r@ == part_filename(headers@),
{
    proof {
        reveal_strlit("filename=");
    }
    let ls = lines_chars(headers);
    let key = chars_of("content-disposition");
    let mut i: usize = 0;
    assert(ls.deep_view().skip(0) =~= ls.deep_view());
    while i < ls.len()
        invariant
            i <= ls.len(),
            key@ == "content-disposition"@,
            "filename="@.len() > 0,
            first_disposition(lines(headers@)) == first_disposition(ls.deep_view().skip(i as int)),
        decreases ls.len() - i,
    {
        assert(ls.deep_view().skip(i as int)[0] == ls[i as int]@);
        assert(ls.deep_view().skip(i as int).drop_first() =~= ls.deep_view().skip(i + 1));
        if starts_with_ascii_lower_chars(&ls[i], &key) {
            return match quoted_value_after(&ls[i], "filename=") {
                Some(name) => name,
                None => chars_of("unknown_file"),
            };
        }
        i += 1;
    }
    chars_of("unknown_file")
}

/// The files of the sections `ss` up to the first one that cannot be read.
pub open spec fn readable_parts(ss: Seq<Seq<char>>) -> Seq<PartModel>
    decreases ss.len(),
{
    if ss.len() == 0 {
        Seq::empty()
    } else if section_skipped(ss[0]) {
        readable_parts(ss.drop_first())
    } else if find(ss[0], "\r\n\r\n"@) is None {
        Seq::empty()
    } else {
        seq![part_of(ss[0])] + readable_parts(ss.drop_first())
    }
}

/// A multipart body holding one section: the boundary marker `--<b>`, the
/// section's header text `h`, a blank line, the file's bytes `t` and the line
/// end before the next marker, then the marker again and `tail`.
pub open spec fn one_file_body(b: Seq<char>, h: Seq<char>, t: Seq<char>, tail: Seq<char>) -> Seq<char> {
    "--"@ + b + (h + "\r\n\r\n"@ + t + "\r\n"@) + "--"@ + b + tail
}

proof fn lemma_trim_closing(tail: Seq<char>)
    requires
        tail == "--"@ || tail == "--\r\n"@,
    ensures
        trim(tail) == "--"@,
{
    reveal_strlit("--");
    reveal_strlit("--\r\n");
    crate::text::lemma_strip_start(tail, crate::text::CharClass::Whitespace, 0);
    assert(tail.skip(0) =~= tail);
    crate::text::lemma_strip_end(tail, crate::text::CharClass::Whitespace, 2);
    assert(tail.take(2) =~= "--"@);
}

/// A reply with one file gives that file, its data exactly the bytes between
/// the blank line after the headers and the line end before the closing
/// marker: for data `t` that does not itself end in `"\r\n"` (so a final
/// `'\n'` of the file is kept), a content type naming boundary `b`, headers
/// `h` without a blank line, holding a character that is neither white space
/// nor `'-'`, and a body where the marker `--<b>` occurs only where it is
/// written, the files read are exactly one, named from `h`, holding `t`, and
/// the reply is read whole.
pub proof fn lemma_one_file_reply(
    content_type: Seq<char>,
    b: Seq<char>,
    h: Seq<char>,
    t: Seq<char>,
    tail: Seq<char>,
    i: int,
)
    requires
        boundary_of(content_type) == Some(b),
        b.len() > 0,
        forall|k: int|
            0 <= k < h.len() ==> !crate::text::matches_at(h + "\r\n\r\n"@, "\r\n\r\n"@, k),
        0 <= i < h.len(),
        !crate::text::is_whitespace(h[i]),
        h[i] != '-',
        !(t.len() >= 2 && t[t.len() - 2] == '\r' && t[t.len() - 1] == '\n'),
        tail.len() == 0 || tail == "--"@ || tail == "--\r\n"@,
        forall|k: int|
            0 < k && k != b.len() + 2 + h.len() + 4 + t.len() + 2 ==> !crate::text::matches_at(
                one_file_body(b, h, t, tail),
                "--"@ + b,
                k,
            ),
    ensures
        readable_multipart_files(content_type, one_file_body(b, h, t, tail)) == Ok::<
            Seq<PartModel>,
            MultipartError,
        >(seq![PartModel { filename: part_filename(h), data: t }]),
        multipart_well_formed(content_type, one_file_body(b, h, t, tail)),
{
    reveal_strlit("--");
    reveal_strlit("\r\n\r\n");
    reveal_strlit("\r\n");
    let m = "--"@ + b;
    let blank = "\r\n\r\n"@;
    let s1 = h + blank + t + "\r\n"@;
    let text = one_file_body(b, h, t, tail);
    let ml = m.len() as int;
    let j = ml + s1.len();
    assert(text =~= m + s1 + m + tail);
    assert(text.subrange(0, ml) =~= m);
    assert(text.subrange(j, j + ml) =~= m);
    assert(text.subrange(0, 0) =~= Seq::<char>::empty());
    assert(text.subrange(ml, j) =~= s1);
    assert(text.subrange(j + ml, text.len() as int) =~= tail);
    // The sections.
    crate::text::lemma_split_next(text, m, ml, ml, j);
    crate::text::lemma_split_last(text, m, j + ml, j + ml);
    assert(split(text, m) =~= seq![Seq::<char>::empty(), s1, tail]);
    assert(sections_of(text, b) =~= seq![s1, tail]);
    // The section holding the file can be read.
    assert forall|k: int| 0 <= k < h.len() implies !crate::text::matches_at(s1, blank, k) by {
        assert(!crate::text::matches_at(h + "\r\n\r\n"@, "\r\n\r\n"@, k));
        assert(s1.subrange(k, k + 4) =~= (h + blank).subrange(k, k + 4));
    }
    let hl = h.len() as int;
    assert(s1.subrange(hl, hl + 4) =~= blank);
    crate::text::lemma_find_first(s1, blank, h.len() as int);
    assert(s1[i] == h[i]);
    let jj = crate::text::lemma_trim_keeps(s1, i);
    assert(trim(s1) != "--"@) by {
        if trim(s1) == "--"@ {
            assert(trim(s1)[jj] == '-');
        }
    }
    assert(!section_skipped(s1));
    assert(s1.take(h.len() as int) =~= h);
    assert(s1.skip(hl + 4) =~= t + "\r\n"@);
    let u = t + "\r\n"@;
    assert(u.take(u.len() - 2) =~= t);
    assert(trim_end_crlf(u) == trim_end_crlf(t));
    assert(part_of(s1) == PartModel { filename: part_filename(h), data: t });
    // The closing section holds no file.
    if tail.len() != 0 {
        lemma_trim_closing(tail);
    }
    assert(section_skipped(tail));
    let ss = seq![s1, tail];
    assert(ss.drop_first() =~= seq![tail]);
    assert(seq![tail].drop_first() =~= Seq::<Seq<char>>::empty());
    assert(readable_parts(Seq::<Seq<char>>::empty()) == Seq::<PartModel>::empty());
    assert(readable_parts(seq![tail]) == Seq::<PartModel>::empty());
    assert(readable_parts(ss) =~= seq![PartModel { filename: part_filename(h), data: t }]);
    assert(section_well_formed(s1) && section_well_formed(tail));
    assert forall|k: int| 0 <= k < ss.len() implies section_well_formed(#[trigger] ss[k]) by {}
}

/// The files of a multipart reply up to its first unreadable section.
pub open spec fn readable_multipart_files(content_type: Seq<char>, text: Seq<char>) -> Result<
    Seq<PartModel>,
    MultipartError,
> {
    match boundary_of(content_type) {
        None => Err(MultipartError::NoBoundary),
        Some(b) => Ok(readable_parts(sections_of(text, b))),
    }
}

/// When every section can be read, the files up to the first unreadable one
/// are all the files.
proof fn lemma_readable_parts_all(ss: Seq<Seq<char>>)
    requires
        forall|i: int| 0 <= i < ss.len() ==> section_well_formed(#[trigger] ss[i]),
    ensures
        readable_parts(ss) == parts_of(ss),
    decreases ss.len(),
{
    if ss.len() > 0 {
        let rest = ss.drop_first();
        assert forall|i: int| 0 <= i < rest.len() implies section_well_formed(#[trigger] rest[i]) by {
            assert(rest[i] == ss[i + 1]);
        }
        assert(section_well_formed(ss[0]));
        lemma_readable_parts_all(rest);
    }
}

pub open spec fn readable_view(r: Result<(Vec<ReceivedPart>, bool), MultipartError>) -> Result<
    Seq<PartModel>,
    MultipartError,
> {
    match r {
        Ok((v, _)) => Ok(parts_view(v@)),
        Err(e) => Err(e),
    }
}

/// Reads the multipart body `text` of type `content_type` up to its first
/// unreadable section, and says whether every section could be read.
fn readable_files_chars(content_type: &Vec<char>, text: &Vec<char>) -> (r: Result<
    (Vec<ReceivedPart>, bool),
    MultipartError,
>)
    ensures
        readable_view(r) == readable_multipart_files(content_type@, text@),
        r matches Ok((_, complete)) ==> complete == multipart_well_formed(content_type@, text@),
{
    proof {
        reveal_strlit("boundary=");
        reveal_strlit("--");
        reveal_strlit("\r\n\r\n");
    }
    let boundary = match quoted_value_after(content_type, "boundary=") {
        None => return Err(MultipartError::NoBoundary),
        Some(b) => b,
    };
    let mut marker = chars_of("--");
    push_all(&mut marker, &boundary);
    let pieces = split_chars(text, &marker);
    let ghost all = pieces.deep_view();
    let ghost sections = sections_of(text@, boundary@);
    assert(sections =~= all.skip(1));
    let blank = chars_of("\r\n\r\n");
    let mut out: Vec<ReceivedPart> = Vec::new();
    let mut i: usize = 1;
    proof {
        crate::text::lemma_split_nonempty(text@, marker@, 0, 0);
    }
    while i < pieces.len()
        invariant
            1 <= i <= pieces.len(),
            boundary_of(content_type@) == Some(boundary@),
            marker@ == "--"@ + boundary@,
            blank@.len() == 4,
            all == pieces.deep_view(),
            sections == all.skip(1),
            sections == sections_of(text@, boundary@),
            blank@ == "\r\n\r\n"@,
            forall|j: int| 1 <= j < i ==> section_well_formed(#[trigger] all[j]),
            parts_view(out@) + readable_parts(all.skip(i as int)) == readable_parts(sections),
        decreases pieces.len() - i,
    {
        let s = &pieces[i];
        let ghost rest = all.skip(i as int);
        assert(rest[0] == s@);
        assert(rest.drop_first() =~= all.skip(i + 1));
        let t = trim_chars(s);
        let skipped = crate::text::eq_str(&t, "--") || s.len() == 0;
        if skipped {
            assert(readable_parts(rest) == readable_parts(rest.drop_first()));
        } else {
            match find_chars(s, &blank) {
                None => {
                    proof {
                        assert(sections[i - 1] == all[i as int]);
                        assert(!section_well_formed(sections[i - 1]));
                        assert(readable_parts(rest) =~= Seq::<PartModel>::empty());
                        assert(parts_view(out@) =~= parts_view(out@) + readable_parts(rest));
                    }
                    return Ok((out, false));
                },
                Some(end) => {
                    proof {
                        crate::text::lemma_find_from(s@, blank@, 0);
                    }
                    let headers = subvec(s, 0, end);
                    let body = subvec(s, end + 4, s.len());
                    let name = part_filename_chars(&headers);
                    let data = trim_end_crlf_chars(&body);
                    let part = ReceivedPart { filename: string_of(&name), data: string_of(&data) };
                    assert(headers@ =~= s@.take(end as int));
                    assert(body@ =~= s@.skip(end + 4));
                    assert(part@ == part_of(s@));
                    let ghost before = out@;
                    out.push(part);
                    assert(parts_view(out@) =~= parts_view(before).push(part@));
                    assert(parts_view(out@) + readable_parts(all.skip(i + 1)) =~= parts_view(
                        before,
                    ) + readable_parts(rest));
                },
            }
        }
        assert(section_well_formed(all[i as int]));
        i += 1;
    }
    proof {
        assert(all.skip(i as int) =~= Seq::<Seq<char>>::empty());
        assert(parts_view(out@) =~= readable_parts(sections));
        assert forall|j: int| 0 <= j < sections.len() implies section_well_formed(
            #[trigger] sections[j],
        ) by {
            assert(sections[j] == all[j + 1]);
        }
    }
    Ok((out, true))
}

/// Reads the multipart body `text` of type `content_type`, or says that a
/// section cannot be read (`None`).
fn try_multipart_files(content_type: &Vec<char>, text: &Vec<char>) -> (r: Option<
    Result<Vec<ReceivedPart>, MultipartError>,
>)
    ensures
        r is None <==> !multipart_well_formed(content_type@, text@),
        r matches Some(res) ==> files_view(res) == multipart_files(content_type@, text@),
{
    match readable_files_chars(content_type, text) {
        Err(e) => Some(Err(e)),
        Ok((v, complete)) => {
            if complete {
                proof {
                    let b = boundary_of(content_type@).unwrap();
                    lemma_readable_parts_all(sections_of(text@, b));
                }
                Some(Ok(v))
            } else {
                None
            }
        },
    }
}

/// The files of a multipart reply of type `content_type` with raw body
/// `body`, up to the first section of the decoded body that cannot be read,
/// and whether every section could be read.
pub fn readable_multipart_reply(content_type: &str, body: &[u8]) -> (r: Result<
    (Vec<ReceivedPart>, bool),
    MultipartError,
>)
    ensures
        readable_view(r) == readable_multipart_files(content_type@, utf8_lossy(body@)),
        r matches Ok((_, complete)) ==> complete == multipart_well_formed(
            content_type@,
            utf8_lossy(body@),
        ),
        vstd::utf8::valid_utf8(body@) ==> readable_view(r) == readable_multipart_files(
            content_type@,
            vstd::utf8::decode_utf8(body@),
        ),
{
    let text = decode_utf8_lossy(body);
    let ct = chars_of(content_type);
    let t = chars_of(text.as_str());
    readable_files_chars(&ct, &t)
}

/// The files of a multipart reply whose body, decoded, is `text`.
pub fn split_multipart(content_type: &str, text: &str) -> (r: Result<
    Vec<ReceivedPart>,
    MultipartError,
>)
    requires
        multipart_well_formed(content_type@, text@),
    ensures
        files_view(r) == multipart_files(content_type@, text@),
{
    let ct = chars_of(content_type);
    let t = chars_of(text);
    try_multipart_files(&ct, &t).unwrap()
}

/// The files of a multipart reply of type `content_type` with raw body
/// `body`; `None` when a section of the decoded body cannot be read.
pub fn parse_multipart_reply(content_type: &str, body: &[u8]) -> (r: Option<
    Result<Vec<ReceivedPart>, MultipartError>,
>)
    ensures
        r is None <==> !multipart_well_formed(content_type@, utf8_lossy(body@)),
        r matches Some(res) ==> files_view(res) == multipart_files(
            content_type@,
            utf8_lossy(body@),
        ),
        vstd::utf8::valid_utf8(body@) ==> (r is None <==> !multipart_well_formed(
            content_type@,
            vstd::utf8::decode_utf8(body@),
        )),
        vstd::utf8::valid_utf8(body@) ==> (r matches Some(res) ==> files_view(res)
            == multipart_files(content_type@, vstd::utf8::decode_utf8(body@))),
{
    let text = decode_utf8_lossy(body);
    let ct = chars_of(content_type);
    let t = chars_of(text.as_str());
    try_multipart_files(&ct, &t)
}

} // verus!
