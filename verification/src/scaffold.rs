//! Names and identifiers for new migration files.

use crate::revision::{opt_text, opt_view};
use crate::template::{
    date_text_fault, filename_text_fault, id_fault, is_filename, is_iso_date, is_letter,
    is_revision_id, is_word_char, letter, message_text_fault, BuilderError, RevisionTemplate,
};
use crate::text::{chars_of, joined, push_char, text_of, trimmed_text, views};
use base64::Engine;
use rand::rand_core::OsError;
use rand::TryRngCore;
use vstd::prelude::*;

verus! {

/// How the name of every migration file begins.
pub const REVISION_PREFIX: &'static str = "version";

/// The form of the date inside a migration.
pub const DATE_FMT: &'static str = "%Y-%m-%dT%H:%M:%S";

/// The form of the date inside the name of a migration file.
pub const DATE_FILE_FMT: &'static str = "%Y%m%d_%H%M%S";

/// The file that lists the migrations.
pub const MIGRATOR_FILENAME: &'static str = "lib.rs";

/// The number of random bytes that a revision identifier is made of.
pub const ID_BYTES: usize = 8;

/// `rand_core::OsError`, the error of the operating system's random source.
#[verifier::external_type_specification]
#[verifier::external_body]
pub struct ExOsError(OsError);

/// Why a new revision could not be set up.
#[derive(Debug)]
pub enum MigrateError {
    /// The operating system gave no random bytes.
    OsRng(OsError),
    /// The values of a template do not meet its rules.
    Render(String),
}

/// The text is a part of `whole`: some characters of it, in one piece.
pub open spec fn is_part_of(text: Seq<char>, whole: Seq<char>) -> bool {
    exists|from: int, to: int| 0 <= from <= to <= whole.len() && text == whole.subrange(from, to)
}

/// The place of the last `.` in a text; -1 where it holds none.
pub open spec fn last_dot(name: Seq<char>) -> int
    decreases name.len(),
{
    if name.len() == 0 {
        -1
    } else if name.last() == '.' {
        name.len() - 1
    } else {
        last_dot(name.drop_last())
    }
}

/// The stem of a file name: the name before its last `.`. A name that holds
/// no `.`, or none but the one it begins with, is its own stem.
pub open spec fn stem_of(name: Seq<char>) -> Seq<char> {
    if last_dot(name) <= 0 {
        name
    } else {
        name.subrange(0, last_dot(name))
    }
}

/// The path is one file name and nothing else, whatever the platform: it is
/// not empty, it is neither `.` nor `..`, and it holds none of `/`, `\` and
/// `:`, of which platforms make separators and prefixes.
pub open spec fn bare_name(path: Seq<char>) -> bool {
    &&& path.len() > 0
    &&& path != seq!['.']
    &&& path != seq!['.', '.']
    &&& forall|i: int|
        0 <= i < path.len() ==> #[trigger] path[i] != '/' && path[i] != '\\' && path[i] != ':'
}

/// `Path::file_stem` on the path, as text. The stem is a slice of the path,
/// and not empty, as no component of a path is. Where the last component
/// begins depends on what the platform takes for a separator or a prefix, so
/// the stem is stated only for a path that is one file name on every
/// platform: there it is the name before its last `.`, or the whole name
/// where that `.` is missing or comes first.
#[verifier::external_body]
fn path_file_stem(path: &str) -> (found: Option<&str>)
    ensures
        found matches Some(text) ==> is_part_of(text@, path@),
        found matches Some(text) ==> text@.len() > 0,
        bare_name(path@) ==> found is Some && found->0@ == stem_of(path@),
{
    std::path::Path::new(path).file_stem().and_then(|stem| stem.to_str())
}

/// The stem of the file that a path leads to: its last component without the
/// extension. Nothing comes back for a path without a file name. Where the
/// last component begins is for the platform to say; whatever it says, the
/// stem is a piece of the path and not empty, and of a path that is a file
/// name and no more, it is that name before its last `.`.
pub fn get_file_stem(path: &str) -> (stem: Option<&str>)
    ensures
        stem matches Some(text) ==> is_part_of(text@, path@) && text@.len() > 0,
        bare_name(path@) ==> stem is Some && stem->0@ == stem_of(path@),
{
    path_file_stem(path)
}

/// `chrono::Utc::now`, formatted. The two patterns that this crate uses are
/// valid patterns; any other might make the formatting panic.
#[verifier::external_body]
fn utc_now_text(pattern: &str) -> (text: String)
    requires
        pattern@ == DATE_FMT@ || pattern@ == DATE_FILE_FMT@,
{
    chrono::Utc::now().format(pattern).to_string()
}

/// The name of the migration file made at the time `stamp` for `stem`.
pub open spec fn file_name_of(stamp: Seq<char>, stem: Seq<char>) -> Seq<char> {
    REVISION_PREFIX@ + "_"@ + stamp + "_"@ + stem
}

/// The name of the migration file made at the time `stamp` for `stem`:
/// the prefix, the time and the stem, joined by underscores.
pub fn filename_at(stamp: &str, stem: &str) -> (name: String)
    ensures
        name@ == file_name_of(stamp@, stem@),
{
    let mut name = joined(REVISION_PREFIX, "_");
    name.append(stamp);
    name.append("_");
    name.append(stem);
    name
}

/// The name of a migration file made now for `stem`.
pub fn filename(stem: &str) -> (name: String)
    ensures
        exists|stamp: Seq<char>| name@ == file_name_of(stamp, stem@),
{
    let stamp = utc_now_text(DATE_FILE_FMT);
    filename_at(stamp.as_str(), stem)
}

/// The date of a migration made now: the reading of the clock, in the form of
/// dates inside migrations. Nothing is claimed of the clock, so nothing is
/// claimed of the text; the builder checks it like any other date.
fn date_now() -> (date: String) {
    utc_now_text(DATE_FMT)
}

/// The character that stands for a group of six bits in the URL-safe base64
/// alphabet: `A` to `Z`, `a` to `z`, `0` to `9`, `-` and `_`.
pub open spec fn url_safe_char(v: int) -> char {
    if v < 26 {
        (65 + v) as u8 as char
    } else if v < 52 {
        (97 + v - 26) as u8 as char
    } else if v < 62 {
        (48 + v - 52) as u8 as char
    } else if v == 62 {
        '-'
    } else {
        '_'
    }
}

/// The groups of six bits that base64 cuts the bytes into: four groups for
/// every three bytes, and two or three groups for one or two bytes left over.
pub open spec fn sextets(bytes: Seq<u8>) -> Seq<int>
    decreases bytes.len(),
{
    if bytes.len() == 0 {
        Seq::empty()
    } else if bytes.len() == 1 {
        seq![bytes[0] as int / 4, (bytes[0] as int % 4) * 16]
    } else if bytes.len() == 2 {
        seq![
            bytes[0] as int / 4,
            (bytes[0] as int % 4) * 16 + bytes[1] as int / 16,
            (bytes[1] as int % 16) * 4,
        ]
    } else {
        seq![
            bytes[0] as int / 4,
            (bytes[0] as int % 4) * 16 + bytes[1] as int / 16,
            (bytes[1] as int % 16) * 4 + bytes[2] as int / 64,
            bytes[2] as int % 64,
        ] + sextets(bytes.skip(3))
    }
}

/// The URL-safe base64 text of the bytes, without padding.
pub open spec fn base64_text(bytes: Seq<u8>) -> Seq<char> {
    sextets(bytes).map_values(|v: int| url_safe_char(v))
}

/// The letters of a text, in order.
pub open spec fn letters_of(text: Seq<char>) -> Seq<char>
    decreases text.len(),
{
    if text.len() == 0 {
        Seq::empty()
    } else if is_letter(text.last()) {
        letters_of(text.drop_last()).push(text.last())
    } else {
        letters_of(text.drop_last())
    }
}

/// `Engine::encode` of the engine `URL_SAFE_NO_PAD`: base64 with the URL-safe
/// alphabet and no padding.
#[verifier::external_body]
fn encode_url_safe(bytes: &Vec<u8>) -> (text: String)
    ensures
        text@ == base64_text(bytes@),
{
    base64::engine::general_purpose::URL_SAFE_NO_PAD.encode(bytes)
}

/// `OsRng::try_fill_bytes` on a buffer of `count` bytes: the filled buffer,
/// or the error of the operating system. Nothing is claimed of the bytes but
/// their number.
#[verifier::external_body]
fn random_bytes(count: usize) -> (result: Result<Vec<u8>, OsError>)
    ensures
        result matches Ok(bytes) ==> bytes@.len() == count,
{
    let mut bytes = vec![0u8; count];
    rand::rngs::OsRng.try_fill_bytes(&mut bytes).map(|_| bytes)
}

/// The letters of a text, in order.
pub fn letters(text: &str) -> (kept: String)
    ensures
        kept@ == letters_of(text@),
{
    let chars = chars_of(text);
    let mut kept = String::new();
    let mut i: usize = 0;
    while i < chars.len()
        invariant
            i <= chars@.len(),
            kept@ == letters_of(chars@.take(i as int)),
        decreases chars@.len() - i,
    {
        proof {
            assert(chars@.take(i + 1).drop_last() == chars@.take(i as int));
            assert(chars@.take(i + 1).last() == chars@[i as int]);
        }
        if letter(chars[i]) {
            push_char(&mut kept, chars[i]);
        }
        i = i + 1;
    }
    proof {
        assert(chars@.take(chars@.len() as int) == chars@);
    }
    kept
}

/// The revision identifier made of the given bytes: the letters of their
/// URL-safe base64 text.
pub open spec fn revision_id_text(bytes: Seq<u8>) -> Seq<char> {
    letters_of(base64_text(bytes))
}

/// The letters of a text are letters, and no more than the text holds.
pub proof fn lemma_letters(text: Seq<char>)
    ensures
        letters_of(text).len() <= text.len(),
        forall|i: int| 0 <= i < letters_of(text).len() ==> is_letter(#[trigger] letters_of(text)[i]),
    decreases text.len(),
{
    if text.len() > 0 {
        lemma_letters(text.drop_last());
    }
}

/// Base64 makes four characters of every three bytes, rounded up to whole
/// characters.
pub proof fn lemma_sextets_len(bytes: Seq<u8>)
    ensures
        sextets(bytes).len() == (4 * bytes.len() + 2) / 3,
    decreases bytes.len(),
{
    if bytes.len() >= 3 {
        lemma_sextets_len(bytes.skip(3));
    }
}

/// The revision identifier made of the given bytes.
pub fn revision_id_of(bytes: &Vec<u8>) -> (id: String)
    ensures
        id@ == revision_id_text(bytes@),
        id@.len() <= (4 * bytes@.len() + 2) / 3,
        forall|i: int| 0 <= i < id@.len() ==> is_letter(#[trigger] id@[i]),
        id@.len() >= 1 ==> is_revision_id(id@),
{
    let encoded = encode_url_safe(bytes);
    let id = letters(encoded.as_str());
    proof {
        lemma_letters(encoded@);
        lemma_sextets_len(bytes@);
    }
    id
}

/// A new revision identifier: up to eleven letters, made of eight bytes from
/// the operating system's random source.
pub fn revision_id() -> (result: Result<String, MigrateError>)
    ensures
        result matches Ok(id) ==> {
            &&& exists|bytes: Seq<u8>| bytes.len() == 8 && id@ == revision_id_text(bytes)
            &&& id@.len() <= 11
            &&& forall|i: int| 0 <= i < id@.len() ==> is_letter(#[trigger] id@[i])
        },
        result matches Err(error) ==> error is OsRng,
{
    match random_bytes(ID_BYTES) {
        Ok(bytes) => Ok(revision_id_of(&bytes)),
        Err(error) => Err(MigrateError::OsRng(error)),
    }
}

/// The first fault among the values of a revision file, in the order file
/// name, date, revision identifier, parent identifier, message.
pub open spec fn values_fault(
    date: Seq<char>,
    revision_id: Seq<char>,
    filename: Seq<char>,
    down_revision_id: Option<Seq<char>>,
    message: Option<Seq<char>>,
) -> Option<Seq<char>> {
    if filename_text_fault(filename) is Some {
        filename_text_fault(filename)
    } else if date_text_fault(date) is Some {
        date_text_fault(date)
    } else if id_fault("revision_id"@, revision_id) is Some {
        id_fault("revision_id"@, revision_id)
    } else if down_revision_id is Some && id_fault("down_revision_id"@, down_revision_id->0)
        is Some {
        id_fault("down_revision_id"@, down_revision_id->0)
    } else if message is Some {
        message_text_fault(message->0)
    } else {
        None
    }
}

/// The values of the revision file for a migration: what the builder makes of
/// them, with the first broken rule as the error.
pub fn revision_template(
    date: &str,
    revision_id: &str,
    filename: &str,
    down_revision_id: Option<&str>,
    message: Option<&str>,
) -> (result: Result<RevisionTemplate, BuilderError>)
    ensures
        result is Ok <==> {
            &&& is_filename(filename@)
            &&& is_iso_date(date@)
            &&& is_revision_id(revision_id@)
            &&& down_revision_id matches Some(down) ==> is_revision_id(down@)
            &&& message matches Some(text) ==> trimmed_text(text@).len() > 0
        },
        result matches Ok(template) ==> {
            &&& template.filename@ == filename@
            &&& template.date@ == date@
            &&& template.revision_id@ == revision_id@
            &&& opt_text(template.down_revision_id) == opt_view(down_revision_id)
            &&& opt_text(template.message) == opt_view(message)
        },
        result matches Err(error) ==> error matches BuilderError::ValidationError(text)
            && values_fault(
            date@,
            revision_id@,
            filename@,
            opt_view(down_revision_id),
            opt_view(message),
        ) == Some(text@),
{
    let mut builder = RevisionTemplate::builder();
    builder.date(date).revision_id(revision_id).filename(filename);
    match down_revision_id {
        Some(down) => {
            builder.down_revision_id(down);
        },
        None => {},
    }
    match message {
        Some(message) => {
            builder.message(message);
        },
        None => {},
    }
    builder.build()
}

/// Every character is a letter, a digit or an underscore.
pub open spec fn word_chars(text: Seq<char>) -> bool {
    forall|i: int| 0 <= i < text.len() ==> is_word_char(#[trigger] text[i])
}

/// What the values of a new revision can be accepted with: a name of
/// letters, digits and underscores, a parent identifier that is one, and a
/// message that holds more than white space.
pub open spec fn acceptable(
    name: Seq<char>,
    down_revision_id: Option<Seq<char>>,
    message: Option<Seq<char>>,
) -> bool {
    &&& word_chars(name)
    &&& down_revision_id matches Some(down) ==> is_revision_id(down)
    &&& message matches Some(text) ==> trimmed_text(text).len() > 0
}

/// The first fault among the values of a new revision that was dated `date`,
/// given the identifier `revision_id`, and named at the time `stamp`.
pub open spec fn new_fault(
    date: Seq<char>,
    revision_id: Seq<char>,
    stamp: Seq<char>,
    name: Seq<char>,
    down_revision_id: Option<Seq<char>>,
    message: Option<Seq<char>>,
) -> Option<Seq<char>> {
    values_fault(date, revision_id, file_name_of(stamp, name), down_revision_id, message)
}

/// A file name that meets the rule of file names ends in a stem of letters,
/// digits and underscores.
proof fn lemma_stem_of_filename(stamp: Seq<char>, stem: Seq<char>)
    requires
        is_filename(file_name_of(stamp, stem)),
    ensures
        word_chars(stem),
{
    reveal_strlit("_");
    let head = REVISION_PREFIX@ + "_"@ + stamp + "_"@;
    let whole = file_name_of(stamp, stem);
    assert(whole == head + stem);
    assert(head.len() >= 2);
    assert forall|i: int| 0 <= i < stem.len() implies is_word_char(#[trigger] stem[i]) by {
        assert(whole[head.len() + i] == stem[i]);
        assert(is_word_char(whole[head.len() + i]));
    }
}

/// The values of the revision file for a new migration called `name`: dated
/// now, under a new identifier, in a file named after the time and the name.
///
/// The clock and the random source have their say: the date and the file
/// name come from the one, the identifier from the other, and an identifier
/// without any letter is refused like any other fault. So success is owed on
/// no input; but it only comes on values that can be accepted, and a refusal
/// names the first fault of the values that were made.
pub fn new_revision(name: &str, down_revision_id: Option<&str>, message: Option<&str>) -> (result:
    Result<RevisionTemplate, MigrateError>)
    ensures
        result is Ok ==> acceptable(name@, opt_view(down_revision_id), opt_view(message)),
        result matches Ok(template) ==> {
            &&& exists|stamp: Seq<char>| template.filename@ == file_name_of(stamp, name@)
            &&& is_filename(template.filename@)
            &&& is_iso_date(template.date@)
            &&& is_revision_id(template.revision_id@)
            &&& template.revision_id@.len() <= 11
            &&& forall|i: int|
                0 <= i < template.revision_id@.len() ==> is_letter(
                    #[trigger] template.revision_id@[i],
                )
            &&& opt_text(template.down_revision_id) == opt_view(down_revision_id)
            &&& opt_text(template.message) == opt_view(message)
        },
        result matches Err(MigrateError::Render(text)) ==> exists|
            date: Seq<char>,
            revision_id: Seq<char>,
            stamp: Seq<char>,
        |
            new_fault(
                date,
                revision_id,
                stamp,
                name@,
                opt_view(down_revision_id),
                opt_view(message),
            ) == Some(text@),
{
    let date = date_now();
    let id = match revision_id() {
        Ok(id) => id,
        Err(error) => {
            return Err(error);
        },
    };
    let file = filename(name);
    let ghost stamp = choose|stamp: Seq<char>| file@ == file_name_of(stamp, name@);
    match revision_template(date.as_str(), id.as_str(), file.as_str(), down_revision_id, message) {
        Ok(template) => {
            proof {
                lemma_stem_of_filename(stamp, name@);
            }
            Ok(template)
        },
        Err(error) => {
            let text = error.to_string();
            proof {
                assert(new_fault(
                    date@,
                    id@,
                    stamp,
                    name@,
                    opt_view(down_revision_id),
                    opt_view(message),
                ) == Some(text@));
            }
            Err(MigrateError::Render(text))
        },
    }
}

/// The text begins with `prefix`.
pub open spec fn has_prefix(text: Seq<char>, prefix: Seq<char>) -> bool {
    prefix.len() <= text.len() && text.subrange(0, prefix.len() as int) == prefix
}

/// The text ends with `suffix`.
pub open spec fn has_suffix(text: Seq<char>, suffix: Seq<char>) -> bool {
    suffix.len() <= text.len() && text.subrange(text.len() - suffix.len(), text.len() as int)
        == suffix
}

/// The text without `suffix` at its end, however often it stands there.
pub open spec fn without_suffix(text: Seq<char>, suffix: Seq<char>) -> Seq<char>
    decreases text.len(),
{
    if suffix.len() > 0 && has_suffix(text, suffix) {
        without_suffix(text.subrange(0, text.len() - suffix.len()), suffix)
    } else {
        text
    }
}

/// The name of a file that holds a migration: it begins with the prefix of
/// revisions and ends with the extension of Rust sources.
pub open spec fn is_revision_file(name: Seq<char>) -> bool {
    has_prefix(name, REVISION_PREFIX@) && has_suffix(name, ".rs"@)
}

/// The module that a migration file declares: the file's name without its
/// extension.
pub open spec fn module_of(name: Seq<char>) -> Seq<char> {
    without_suffix(name, ".rs"@)
}

/// The modules of the migration files among the given file names, in the
/// order of the names.
pub open spec fn modules_of(names: Seq<String>) -> Seq<Seq<char>>
    decreases names.len(),
{
    if names.len() == 0 {
        Seq::empty()
    } else if is_revision_file(names.last()@) {
        modules_of(names.drop_last()).push(module_of(names.last()@))
    } else {
        modules_of(names.drop_last())
    }
}

/// Whether the first `len` characters end with `suffix`.
fn ends_with(chars: &Vec<char>, len: usize, suffix: &Vec<char>) -> (yes: bool)
    requires
        len <= chars@.len(),
    ensures
        yes == has_suffix(chars@.take(len as int), suffix@),
{
    let m = suffix.len();
    if m > len {
        return false;
    }
    let start = len - m;
    let ghost text = chars@.take(len as int);
    let mut i: usize = 0;
    while i < m
        invariant
            i <= m,
            m == suffix@.len(),
            start + m == len,
            len <= chars@.len(),
            text == chars@.take(len as int),
            forall|k: int| 0 <= k < i ==> chars@[start + k] == suffix@[k],
        decreases m - i,
    {
        if chars[start + i] != suffix[i] {
            proof {
                let tail = text.subrange(text.len() - m, text.len() as int);
                assert(tail[i as int] == chars@[start + i]);
            }
            return false;
        }
        i = i + 1;
    }
    proof {
        assert(text.subrange(text.len() - m, text.len() as int) =~= suffix@);
    }
    true
}

/// Whether the characters begin with `prefix`.
fn starts_with(chars: &Vec<char>, prefix: &Vec<char>) -> (yes: bool)
    ensures
        yes == has_prefix(chars@, prefix@),
{
    let m = prefix.len();
    if m > chars.len() {
        return false;
    }
    let mut i: usize = 0;
    while i < m
        invariant
            i <= m,
            m == prefix@.len(),
            m <= chars@.len(),
            forall|k: int| 0 <= k < i ==> chars@[k] == prefix@[k],
        decreases m - i,
    {
        if chars[i] != prefix[i] {
            proof {
                assert(chars@.subrange(0, m as int)[i as int] == chars@[i as int]);
            }
            return false;
        }
        i = i + 1;
    }
    proof {
        assert(chars@.subrange(0, m as int) =~= prefix@);
    }
    true
}

/// The module that a file declares: the file's name without its extension.
pub fn module_name(file_name: &str) -> (module: String)
    ensures
        module@ == module_of(file_name@),
{
    let chars = chars_of(file_name);
    let suffix = chars_of(".rs");
    let mut len = chars.len();
    if suffix.len() == 0 {
        return text_of(&chars);
    }
    proof {
        assert(chars@.take(len as int) == chars@);
    }
    while ends_with(&chars, len, &suffix)
        invariant
            len <= chars@.len(),
            suffix@ == ".rs"@,
            suffix@.len() > 0,
            without_suffix(chars@.take(len as int), suffix@) == without_suffix(chars@, suffix@),
        decreases len,
    {
        proof {
            let text = chars@.take(len as int);
            assert(text.subrange(0, text.len() - suffix@.len()) == chars@.take(
                len - suffix@.len(),
            ));
        }
        len = len - suffix.len();
    }
    let mut kept: Vec<char> = Vec::new();
    let mut i: usize = 0;
    while i < len
        invariant
            i <= len <= chars@.len(),
            kept@ == chars@.take(i as int),
        decreases len - i,
    {
        kept.push(chars[i]);
        assert(chars@.take(i + 1) == chars@.take(i as int).push(chars@[i as int]));
        i = i + 1;
    }
    text_of(&kept)
}

/// Whether a file of this name holds a migration.
pub fn revision_file(file_name: &str) -> (yes: bool)
    ensures
        yes == is_revision_file(file_name@),
{
    let chars = chars_of(file_name);
    let prefix = chars_of(REVISION_PREFIX);
    let suffix = chars_of(".rs");
    proof {
        assert(chars@.take(chars@.len() as int) == chars@);
    }
    starts_with(&chars, &prefix) && ends_with(&chars, chars.len(), &suffix)
}

/// The modules that the migrator file has to list: one for each migration
/// file among the given file names.
pub fn migration_modules(file_names: &Vec<String>) -> (modules: Vec<String>)
    ensures
        views(modules@) == modules_of(file_names@),
{
    let mut modules: Vec<String> = Vec::new();
    let mut i: usize = 0;
    assert(views(modules@) =~= modules_of(file_names@.take(0)));
    while i < file_names.len()
        invariant
            i <= file_names@.len(),
            views(modules@) == modules_of(file_names@.take(i as int)),
        decreases file_names@.len() - i,
    {
        proof {
            assert(file_names@.take(i + 1).drop_last() == file_names@.take(i as int));
            assert(file_names@.take(i + 1).last() == file_names@[i as int]);
        }
        if revision_file(file_names[i].as_str()) {
            let ghost before = modules@;
            modules.push(module_name(file_names[i].as_str()));
            assert(views(modules@) == views(before).push(
                module_of(file_names@[i as int]@),
            ));
        }
        i = i + 1;
    }
    proof {
        assert(file_names@.take(file_names@.len() as int) == file_names@);
    }
    modules
}

} // verus!
