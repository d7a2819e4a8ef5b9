//! Notification settings kept in a private GitHub repository: configuration,
//! validation rules, and the changes that commands make to guild settings.
use vstd::prelude::*;
use vstd::string::StringSliceAdditionalSpecFns;

use crate::settings::{guild_path, StorageError};
use crate::text::{append, append_str, byte_len, chars_of, eq, eq_str, is_ws, spec_is_ws, spec_starts_with, starts_with, string_of, utf8_width, utf8_width_exec};
use vstd::utf8::{decode_utf8, valid_utf8};

verus! {

#[derive(Clone)]
pub struct StorageConfig {
    pub owner: String,
    pub repository: String,
    pub branch: String,
    pub token: String,
}

impl StorageConfig {
    /// Debug rendering with the token hidden.
    pub open spec fn debug_text(&self) -> Seq<char> {
        "StorageConfig { owner: \""@ + self.owner@ + "\", repository: \""@ + self.repository@
            + "\", branch: \""@ + self.branch@ + "\", token: \"[redacted]\" }"@
    }

    /// The debug rendering of the configuration; the token never appears in it.
    pub fn debug_string(&self) -> (r: String)
        ensures
            r@ == self.debug_text(),
    {
        let mut v: Vec<char> = Vec::new();
        append_str(&mut v, "StorageConfig { owner: \"");
        append_str(&mut v, self.owner.as_str());
        append_str(&mut v, "\", repository: \"");
        append_str(&mut v, self.repository.as_str());
        append_str(&mut v, "\", branch: \"");
        append_str(&mut v, self.branch.as_str());
        append_str(&mut v, "\", token: \"[redacted]\" }");
        string_of(v.as_slice())
    }
}

// ---------------------------------------------------------------------------
// Files of the settings repository
// ---------------------------------------------------------------------------

/// The largest document kept in the repository, in bytes.
pub const MAX_DOCUMENT_BYTES: usize = 262144;

/// The most files a settings directory may hold.
pub const MAX_DIRECTORY_FILES: usize = 999;

/// Attempts at writing guild settings when writes conflict.
pub const WRITE_ATTEMPTS: usize = 2;

/// The application that the repository's manifest must name.
pub const MANIFEST_APPLICATION: &'static str = "kbc-discord-bot-data";

/// The bytes that the standard base64 alphabet (with padding) decodes a text
/// to, or `None` where the text is not such base64.
pub uninterp spec fn base64_decode_of(input: Seq<char>) -> Option<Seq<u8>>;

/// The standard base64 text (with padding) of the UTF-8 bytes of a text.
pub uninterp spec fn base64_encode_of(text: Seq<char>) -> Seq<char>;

/// `base64::engine::general_purpose::STANDARD.decode` on the bytes of a text:
/// the decoded bytes, `None` where the engine refuses the input.
#[verifier::external_body]
fn base64_decode(input: &str) -> (r: Option<Vec<u8>>)
    ensures
        match r {
            Some(v) => base64_decode_of(input@) == Some(v@),
            None => base64_decode_of(input@) is None,
        },
{
    base64::Engine::decode(&base64::engine::general_purpose::STANDARD, input.as_bytes()).ok()
}

/// `base64::engine::general_purpose::STANDARD.encode` on the UTF-8 bytes of
/// a text.
#[verifier::external_body]
fn base64_encode(text: &str) -> (r: String)
    ensures
        r@ == base64_encode_of(text@),
{
    base64::Engine::encode(&base64::engine::general_purpose::STANDARD, text.as_bytes())
}

/// A text without its whitespace (`char::is_whitespace`).
pub open spec fn without_whitespace(s: Seq<char>) -> Seq<char>
    decreases s.len(),
{
    if s.len() == 0 {
        Seq::empty()
    } else if spec_is_ws(s.last()) {
        without_whitespace(s.drop_last())
    } else {
        without_whitespace(s.drop_last()).push(s.last())
    }
}

fn strip_whitespace(s: &str) -> (r: String)
    ensures
        r@ == without_whitespace(s@),
{
    let v = chars_of(s);
    let mut out: Vec<char> = Vec::new();
    let mut i: usize = 0;
    while i < v.len()
        invariant
            i <= v@.len(),
            v@ == s@,
            out@ == without_whitespace(v@.take(i as int)),
        decreases v@.len() - i,
    {
        assert(v@.take(i + 1).drop_last() =~= v@.take(i as int));
        if !is_ws(v[i]) {
            out.push(v[i]);
        }
        i += 1;
    }
    assert(v@.take(i as int) =~= v@);
    string_of(out.as_slice())
}

/// A file read from the repository: its text and its blob sha.
pub struct RepositoryFile {
    pub content: String,
    pub sha: String,
}

/// What a contents response for a file is read as: a file entry in base64
/// with a sha, whose content (whitespace removed) decodes to at most
/// `MAX_DOCUMENT_BYTES` bytes of UTF-8.
pub open spec fn spec_decode_file(
    entry_type: Seq<char>,
    encoding: Seq<char>,
    sha: Seq<char>,
    content: Seq<char>,
) -> Result<(Seq<char>, Seq<char>), Seq<char>> {
    if entry_type != "file"@ || encoding != "base64"@ || sha.len() == 0 {
        Err("invalid-file"@)
    } else {
        match base64_decode_of(without_whitespace(content)) {
            None => Err("invalid-base64"@),
            Some(bytes) => if bytes.len() > MAX_DOCUMENT_BYTES {
                Err("document-too-large"@)
            } else if !valid_utf8(bytes) {
                Err("invalid-utf8"@)
            } else {
                Ok((decode_utf8(bytes), sha))
            },
        }
    }
}

/// Reads the file of a contents response.
pub fn decode_repository_file(entry_type: &str, encoding: &str, sha: &str, content: &str) -> (r: Result<
    RepositoryFile,
    StorageError,
>)
    ensures
        match r {
            Ok(f) => spec_decode_file(entry_type@, encoding@, sha@, content@) == Ok::<
                (Seq<char>, Seq<char>),
                Seq<char>,
            >((f.content@, f.sha@)),
            Err(e) => spec_decode_file(entry_type@, encoding@, sha@, content@) == Err::<
                (Seq<char>, Seq<char>),
                Seq<char>,
            >(e.code@),
        },
{
    let et = chars_of(entry_type);
    let enc = chars_of(encoding);
    let sv = chars_of(sha);
    if !eq_str(et.as_slice(), "file") || !eq_str(enc.as_slice(), "base64") || sv.len() == 0 {
        return Err(StorageError::new("invalid-file"));
    }
    let encoded = strip_whitespace(content);
    let bytes = match base64_decode(encoded.as_str()) {
        Some(b) => b,
        None => {
            return Err(StorageError::new("invalid-base64"));
        },
    };
    if bytes.len() > MAX_DOCUMENT_BYTES {
        return Err(StorageError::new("document-too-large"));
    }
    match crate::motion_project::from_utf8(bytes.as_slice()) {
        Some(text) => Ok(RepositoryFile { content: text, sha: string_of(sv.as_slice()) }),
        None => Err(StorageError::new("invalid-utf8")),
    }
}

fn exceeds_bytes(s: &[char], limit: usize) -> (r: bool)
    ensures
        r == (byte_len(s@) > limit),
{
    let mut total: usize = 0;
    let mut i: usize = 0;
    while i < s.len()
        invariant
            i <= s@.len(),
            total == byte_len(s@.take(i as int)),
            total <= limit,
        decreases s@.len() - i,
    {
        assert(s@.take(i + 1).drop_last() =~= s@.take(i as int));
        let w = utf8_width_exec(s[i]);
        if w > limit - total {
            proof {
                lemma_byte_len_prefix(s@, i as int + 1);
            }
            return true;
        }
        total = total + w;
        i += 1;
    }
    assert(s@.take(i as int) =~= s@);
    false
}

proof fn lemma_byte_len_prefix(s: Seq<char>, n: int)
    requires
        0 <= n <= s.len(),
    ensures
        byte_len(s.take(n)) <= byte_len(s),
    decreases s.len() - n,
{
    if n < s.len() {
        lemma_byte_len_prefix(s, n + 1);
        assert(s.take(n + 1).drop_last() =~= s.take(n));
    } else {
        assert(s.take(n) =~= s);
    }
}

/// The content of a document to write: refused over `MAX_DOCUMENT_BYTES`
/// bytes of UTF-8, else its base64 text.
pub open spec fn spec_encode_document(content: Seq<char>) -> Result<Seq<char>, Seq<char>> {
    if byte_len(content) > MAX_DOCUMENT_BYTES {
        Err("document-too-large"@)
    } else {
        Ok(base64_encode_of(content))
    }
}

pub fn encode_document(content: &str) -> (r: Result<String, StorageError>)
    ensures
        match r {
            Ok(t) => spec_encode_document(content@) == Ok::<Seq<char>, Seq<char>>(t@),
            Err(e) => spec_encode_document(content@) == Err::<Seq<char>, Seq<char>>(e.code@),
        },
{
    let v = chars_of(content);
    if exceeds_bytes(v.as_slice(), MAX_DOCUMENT_BYTES) {
        return Err(StorageError::new("document-too-large"));
    }
    Ok(base64_encode(content))
}

/// The settings repository is used only while it is private and neither
/// archived nor disabled.
pub fn repository_usable(private: Option<bool>, archived: Option<bool>, disabled: Option<bool>) -> (r: bool)
    ensures
        r == (private == Some(true) && archived != Some(true) && disabled != Some(true)),
{
    let p = match private {
        Some(true) => true,
        _ => false,
    };
    let a = match archived {
        Some(true) => true,
        _ => false,
    };
    let d = match disabled {
        Some(true) => true,
        _ => false,
    };
    p && !a && !d
}

/// The check of the repository before its settings are read.
pub fn check_repository(private: Option<bool>, archived: Option<bool>, disabled: Option<bool>) -> (r: Result<
    (),
    StorageError,
>)
    ensures
        r is Ok <==> (private == Some(true) && archived != Some(true) && disabled != Some(true)),
        r matches Err(e) ==> e.code@ == "repository-unavailable"@,
{
    if repository_usable(private, archived, disabled) {
        Ok(())
    } else {
        Err(StorageError::new("repository-unavailable"))
    }
}

/// The manifest names the schema and the application of the repository.
pub fn check_manifest(schema_version: u64, application: &str) -> (r: Result<(), StorageError>)
    ensures
        r is Ok <==> (schema_version == 1 && application@ == MANIFEST_APPLICATION@),
        r matches Err(e) ==> e.code@ == "invalid-manifest"@,
{
    let a = chars_of(application);
    if schema_version == 1 && eq_str(a.as_slice(), MANIFEST_APPLICATION) {
        Ok(())
    } else {
        Err(StorageError::new("invalid-manifest"))
    }
}

/// A guild's settings file must lie at the path of the guild id it holds.
pub fn check_guild_file(path: &str, guild_id: &str) -> (r: Result<(), StorageError>)
    ensures
        match r {
            Ok(()) => crate::settings::spec_valid_snowflake(guild_id@) && path@ == "config/guilds/"@ + guild_id@
                + ".json"@,
            Err(e) => if !crate::settings::spec_valid_snowflake(guild_id@) {
                e.code@ == "invalid-guild-id"@
            } else {
                path@ != "config/guilds/"@ + guild_id@ + ".json"@ && e.code@ == "invalid-guild-path"@
            },
        },
{
    let expected = guild_path(guild_id)?;
    let a = chars_of(path);
    let b = chars_of(expected.as_str());
    if eq(a.as_slice(), b.as_slice()) {
        Ok(())
    } else {
        Err(StorageError::new("invalid-guild-path"))
    }
}

/// An entry of a directory listing: its type and its path.
pub struct DirectoryItem {
    pub entry_type: String,
    pub path: String,
}

pub open spec fn item_ok(directory: Seq<char>, item: DirectoryItem) -> bool {
    item.entry_type@ == "file"@ && spec_starts_with(item.path@, directory + "/"@)
}

/// A directory listing is accepted with at most `MAX_DIRECTORY_FILES`
/// entries, each a file under the directory.
pub open spec fn listing_ok(directory: Seq<char>, items: Seq<DirectoryItem>) -> bool {
    items.len() <= MAX_DIRECTORY_FILES && forall|i: int| 0 <= i < items.len() ==> item_ok(directory, #[trigger] items[i])
}

/// The paths of a directory listing, in order, or `invalid-directory`.
pub fn check_directory(directory: &str, items: &Vec<DirectoryItem>) -> (r: Result<Vec<String>, StorageError>)
    ensures
        match r {
            Ok(paths) => listing_ok(directory@, items@) && paths@.len() == items@.len() && forall|i: int|
                0 <= i < items@.len() ==> (#[trigger] paths@[i])@ == items@[i].path@,
            Err(e) => !listing_ok(directory@, items@) && e.code@ == "invalid-directory"@,
        },
{
    if items.len() > MAX_DIRECTORY_FILES {
        return Err(StorageError::new("invalid-directory"));
    }
    let mut prefix = chars_of(directory);
    prefix.push('/');
    proof {
        reveal_strlit("/");
    }
    assert(prefix@ =~= directory@ + "/"@);
    let mut paths: Vec<String> = Vec::new();
    let mut i: usize = 0;
    while i < items.len()
        invariant
            i <= items@.len(),
            items@.len() <= MAX_DIRECTORY_FILES,
            prefix@ == directory@ + "/"@,
            paths@.len() == i,
            forall|k: int| 0 <= k < i ==> item_ok(directory@, #[trigger] items@[k]),
            forall|k: int| 0 <= k < i ==> (#[trigger] paths@[k])@ == items@[k].path@,
        decreases items@.len() - i,
    {
        let t = chars_of(items[i].entry_type.as_str());
        let p = chars_of(items[i].path.as_str());
        if !eq_str(t.as_slice(), "file") || !starts_with(p.as_slice(), prefix.as_slice()) {
            assert(!item_ok(directory@, items@[i as int]));
            return Err(StorageError::new("invalid-directory"));
        }
        paths.push(string_of(p.as_slice()));
        i += 1;
    }
    Ok(paths)
}

/// What comes after writing guild settings.
pub enum WriteNext {
    /// The settings were saved.
    Saved,
    /// The write conflicted and another attempt is left: read the settings
    /// again and write once more.
    Retry,
    /// The update fails with this error.
    Failed(StorageError),
}

/// After the `attempt`-th write (from zero): a conflict is retried while
/// attempts are left, any other failure ends the update.
pub fn after_write(attempt: usize, result: Result<(), StorageError>) -> (r: WriteNext)
    ensures
        match result {
            Ok(()) => r is Saved,
            Err(e) => if e.code@ == "conflict"@ && attempt + 1 < WRITE_ATTEMPTS {
                r is Retry
            } else {
                r matches WriteNext::Failed(x) && x.code@ == e.code@
            },
        },
{
    match result {
        Ok(()) => WriteNext::Saved,
        Err(e) => {
            let c = chars_of(e.code());
            if eq_str(c.as_slice(), "conflict") && attempt < WRITE_ATTEMPTS - 1 {
                WriteNext::Retry
            } else {
                WriteNext::Failed(e)
            }
        },
    }
}

/// A response status of the repository API for a file or directory: found
/// (2xx), missing (404), or the error `http-<status>`.
pub open spec fn spec_content_status(status: u16) -> Result<bool, Seq<char>> {
    if status == 404 {
        Ok(false)
    } else if 200 <= status <= 299 {
        Ok(true)
    } else {
        Err("http-"@ + crate::text::decimal(status as nat))
    }
}

pub fn content_status(status: u16) -> (r: Result<bool, StorageError>)
    ensures
        match r {
            Ok(b) => spec_content_status(status) == Ok::<bool, Seq<char>>(b),
            Err(e) => spec_content_status(status) == Err::<bool, Seq<char>>(e.code@),
        },
{
    if status == 404 {
        Ok(false)
    } else if 200 <= status && status <= 299 {
        Ok(true)
    } else {
        let mut v = chars_of("http-");
        let n = crate::text::fmt_u64(status as u64);
        append(&mut v, n.as_slice());
        Err(StorageError::new(string_of(v.as_slice()).as_str()))
    }
}

/// The repository API limits the bot: a `429`, or a `403` with no requests
/// remaining or with a `retry-after` header.
pub fn rate_limited(status: u16, remaining_zero: bool, has_retry_after: bool) -> (r: bool)
    ensures
        r == (status == 429 || (status == 403 && (remaining_zero || has_retry_after))),
{
    status == 429 || (status == 403 && (remaining_zero || has_retry_after))
}

/// The API address of the settings repository, from a valid owner and
/// repository name.
pub open spec fn spec_repository_url(owner: Seq<char>, repository: Seq<char>) -> Result<Seq<char>, Seq<char>> {
    if owner.len() > 0 && crate::settings::all_name_chars(owner) && repository.len() > 0
        && crate::settings::all_name_chars(repository) {
        Ok("https://api.github.com/repos/"@ + owner + "/"@ + repository)
    } else {
        Err("invalid-configuration"@)
    }
}

pub fn repository_url(owner: &str, repository: &str) -> (r: Result<String, StorageError>)
    ensures
        match r {
            Ok(u) => spec_repository_url(owner@, repository@) == Ok::<Seq<char>, Seq<char>>(u@),
            Err(e) => spec_repository_url(owner@, repository@) == Err::<Seq<char>, Seq<char>>(e.code@),
        },
{
    if !crate::settings::valid_repository_name(owner) || !crate::settings::valid_repository_name(repository) {
        return Err(StorageError::new("invalid-configuration"));
    }
    let mut v = chars_of("https://api.github.com/repos/");
    append_str(&mut v, owner);
    append_str(&mut v, "/");
    append_str(&mut v, repository);
    Ok(string_of(v.as_slice()))
}

/// The address that reads a path of the repository on a branch.
pub open spec fn spec_contents_url(base: Seq<char>, path: Seq<char>, branch: Seq<u8>) -> Seq<char> {
    base + "/contents/"@ + path + "?ref="@ + crate::settings::spec_encode_segment(branch)
}

pub fn contents_url(base: &str, path: &str, branch: &str) -> (r: String)
    ensures
        r@ == spec_contents_url(base@, path@, branch.spec_bytes()),
{
    let mut v = chars_of(base);
    append_str(&mut v, "/contents/");
    append_str(&mut v, path);
    append_str(&mut v, "?ref=");
    let b = crate::settings::encode_path_segment(branch);
    append_str(&mut v, b.as_str());
    string_of(v.as_slice())
}

/// A write whose request failed still counts as done when the file read
/// back holds exactly the content written.
pub fn write_confirmed(read_back: &Option<RepositoryFile>, content: &str) -> (r: bool)
    ensures
        r == (read_back matches Some(f) && f.content@ == content@),
{
    match read_back {
        Some(f) => {
            let a = chars_of(f.content.as_str());
            let b = chars_of(content);
            eq(a.as_slice(), b.as_slice())
        },
        None => false,
    }
}

} // verus!
