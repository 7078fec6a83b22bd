//! The bundle staging area: what is recorded for each uploaded file, and how the
//! uploads of one request become a manifest.

use vstd::prelude::*;
use sha2::Digest as _;
use crate::models::{FileMeta, BundleMeta};
use crate::naming::{sanitize_filename, is_safe_file_name, extract_kind, kind_label, kind_of};

verus! {

/// The MIME type that mime_guess gives for a path, from its extension.
pub uninterp spec fn mime_of(path: Seq<char>) -> Seq<char>;

/// Relies on mime_guess's `MimeGuess::from_path(..).first_or_octet_stream()`: the first
/// MIME type known for the extension of the path, else `application/octet-stream`;
/// it depends on the path alone.
#[verifier::external_body]
fn guess_mime(path: &str) -> (r: String)
    ensures
        r@ == mime_of(path@),
{
    mime_guess::MimeGuess::from_path(path).first_or_octet_stream().to_string()
}

/// The SHA-256 digest of some bytes, in lowercase hex.
pub uninterp spec fn sha256_hex_of(b: Seq<u8>) -> Seq<char>;

/// Relies on sha2's `Sha256::digest` and the lowercase hex formatting of its output:
/// 32 bytes, 64 hex digits.
#[verifier::external_body]
fn sha256_hex(content: &[u8]) -> (r: String)
    ensures
        r@ == sha256_hex_of(content@),
        r@.len() == 64,
{
    format!("{:x}", sha2::Sha256::digest(content))
}

/// The manifest record of a staged file: its size in bytes, its modification time if
/// known, the MIME type and kind guessed from its name, and the digest of its content
/// if it could be read back.
pub fn describe_file(name: &str, size: i64, mtime: Option<String>, content: Option<&[u8]>) -> (r: FileMeta)
    ensures
        r.name@ == name@,
        r.size == size,
        r.mtime == mtime,
        r.mime@ == mime_of(name@),
        r.kind@ == kind_label(kind_of(name@)),
        content is None ==> r.checksum is None,
        content matches Some(c) ==> r.checksum matches Some(h) && h@ == sha256_hex_of(c@),
{
    let checksum = match content {
        Some(c) => Some(sha256_hex(c)),
        None => None,
    };
    FileMeta {
        name: name.to_owned(),
        size,
        mtime,
        mime: guess_mime(name),
        kind: extract_kind(name).to_owned(),
        checksum,
    }
}

/// What creating a bundle reports.
#[derive(Debug, Clone, PartialEq, Eq)]
pub struct CreateBundleResponse {
    pub id: String,
    pub files: Vec<String>,
    pub failed_files: Vec<String>,
}

/// Why no bundle was made.
#[derive(Debug, Clone, Copy, PartialEq, Eq, Structural)]
pub enum BundleError {
    EmptyBundle,
}

/// The uploads of one request, as they are staged.
pub struct BundleBuilder {
    files: Vec<FileMeta>,
    failed: Vec<String>,
}

pub open spec fn names_of(files: Seq<FileMeta>) -> Seq<Seq<char>> {
    files.map_values(|f: FileMeta| f.name@)
}

pub open spec fn texts(s: Seq<String>) -> Seq<Seq<char>> {
    s.map_values(|x: String| x@)
}

impl BundleBuilder {
    /// Every staged file has a name that is safe to store.
    pub closed spec fn wf(&self) -> bool {
        forall|i: int| 0 <= i < self.files@.len() ==> is_safe_file_name(#[trigger] self.files@[i].name@)
    }

    /// The manifest entries of the files staged so far.
    pub closed spec fn recorded(&self) -> Seq<FileMeta> {
        self.files@
    }

    /// The names of the files staged so far.
    pub closed spec fn staged(&self) -> Seq<Seq<char>> {
        names_of(self.files@)
    }

    /// The names of the uploads that failed so far.
    pub closed spec fn failures(&self) -> Seq<Seq<char>> {
        texts(self.failed@)
    }

    pub fn new() -> (r: BundleBuilder)
        ensures
            r.staged() == Seq::<Seq<char>>::empty(),
            r.recorded() == Seq::<FileMeta>::empty(),
            r.failures() == Seq::<Seq<char>>::empty(),
            r.wf(),
    {
        let r = BundleBuilder { files: Vec::new(), failed: Vec::new() };
        assert(names_of(r.files@) =~= Seq::<Seq<char>>::empty());
        assert(texts(r.failed@) =~= Seq::<Seq<char>>::empty());
        r
    }

    /// The name under which an upload called `raw` is stored; an unsafe name is
    /// recorded as a failure instead.
    pub fn accept_name(&mut self, raw: &str) -> (r: Option<String>)
        requires
            old(self).wf(),
        ensures
            final(self).wf(),
            r is Some <==> is_safe_file_name(raw@),
            r matches Some(n) ==> n@ == raw@,
            final(self).staged() == old(self).staged(),
            final(self).recorded() == old(self).recorded(),
            final(self).failures() == if is_safe_file_name(raw@) {
                old(self).failures()
            } else {
                old(self).failures().push(raw@)
            },
    {
        let r = sanitize_filename(raw);
        if r.is_none() {
            self.failed.push(raw.to_owned());
            assert(texts(self.failed@) =~= texts(old(self).failed@).push(raw@));
        }
        r
    }

    /// Records a file that was written in full. A file whose name is not safe to store
    /// is recorded as a failure instead.
    pub fn record(&mut self, file: FileMeta)
        requires
            old(self).wf(),
        ensures
            final(self).wf(),
            is_safe_file_name(file.name@) ==> final(self).recorded() == old(self).recorded().push(file)
                && final(self).staged() == old(self).staged().push(file.name@) && final(self).failures()
                == old(self).failures(),
            !is_safe_file_name(file.name@) ==> final(self).recorded() == old(self).recorded()
                && final(self).staged() == old(self).staged() && final(self).failures()
                == old(self).failures().push(file.name@),
    {
        let ghost n = file.name@;
        if sanitize_filename(file.name.as_str()).is_none() {
            self.failed.push(file.name);
            assert(texts(self.failed@) =~= texts(old(self).failed@).push(n));
            return;
        }
        self.files.push(file);
        assert(names_of(self.files@) =~= names_of(old(self).files@).push(n));
        assert(self.files@[self.files@.len() - 1].name@ == n);
    }

    /// Records an upload that could not be written.
    pub fn record_failure(&mut self, name: String)
        requires
            old(self).wf(),
        ensures
            final(self).wf(),
            final(self).staged() == old(self).staged(),
            final(self).recorded() == old(self).recorded(),
            final(self).failures() == old(self).failures().push(name@),
    {
        let ghost n = name@;
        self.failed.push(name);
        assert(texts(self.failed@) =~= texts(old(self).failed@).push(n));
    }

    /// The manifest and the report of bundle `id`, uploaded at `uploaded_at`; fails
    /// with `EmptyBundle` when no file was staged.
    pub fn finish(self, id: String, uploaded_at: String) -> (r: Result<(BundleMeta, CreateBundleResponse), BundleError>)
        requires
            self.wf(),
        ensures
            r is Err <==> self.staged().len() == 0,
            r matches Ok((meta, resp)) ==> meta.files@ == self.recorded() && names_of(meta.files@) == self.staged() && meta.uploaded_at@
                == uploaded_at@ && resp.id@ == id@ && texts(resp.files@) == self.staged() && texts(
                resp.failed_files@,
            ) == self.failures(),
            r matches Ok((meta, resp)) ==> forall|i: int| 0 <= i < meta.files@.len() ==> is_safe_file_name(
                #[trigger] meta.files@[i].name@,
            ),
    {
        if self.files.len() == 0 {
            return Err(BundleError::EmptyBundle);
        }
        let mut names: Vec<String> = Vec::new();
        let mut i: usize = 0;
        while i < self.files.len()
            invariant
                i <= self.files@.len(),
                names@.len() == i,
                forall|k: int| 0 <= k < i ==> #[trigger] names@[k]@ == self.files@[k].name@,
            decreases self.files@.len() - i,
        {
            names.push(self.files[i].name.clone());
            i = i + 1;
        }
        assert(texts(names@) =~= names_of(self.files@));
        let resp = CreateBundleResponse { id, files: names, failed_files: self.failed };
        Ok((BundleMeta { uploaded_at, files: self.files }, resp))
    }
}

} // verus!
