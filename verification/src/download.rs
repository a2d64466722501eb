//! Hugging Face model sources: parsing repository, tree and file URLs,
//! turning a source into a download request, and checking the file layout
//! of a downloaded MLX bundle.

use vstd::prelude::*;
use crate::text::{
    chars_to_strings, contains_char, contains_chars, ends_with, has_suffix, string_views,
    strings_to_chars,
    has_char, lemma_char_in_join, lemma_join_of_segments, lemma_segments_plain, no_empty_segments,
    lemma_join_without_char, lemma_no_char_concat, lemma_segments_around_sep,
    lemma_segments_of_join, lemma_segments_single, lemma_take_until_any_at,
    chars_eq, chars_of, has_prefix, join_range, join_with, prefix_before_any, push_all, segments,
    slice_chars, split_nonempty, starts_with, string_from_chars, take_until_any, trim_start_all,
    trim_start_matches, views,
};

verus! {

/// Where a Hugging Face URL points.
#[derive(Debug, Clone, PartialEq, Eq)]
pub enum HfSource {
    /// One file of a repository at a revision.
    File { repo: String, revision: String, filename: String },
    /// The tree of a repository at a revision.
    Tree { repo: String, revision: String },
    /// A repository, with no revision given.
    Repo { repo: String },
}

/// The mathematical value of an [`HfSource`].
pub enum HfSourceView {
    File { repo: Seq<char>, revision: Seq<char>, filename: Seq<char> },
    Tree { repo: Seq<char>, revision: Seq<char> },
    Repo { repo: Seq<char> },
}

impl View for HfSource {
    type V = HfSourceView;

    open spec fn view(&self) -> HfSourceView {
        match self {
            HfSource::File { repo, revision, filename } => HfSourceView::File {
                repo: repo@,
                revision: revision@,
                filename: filename@,
            },
            HfSource::Tree { repo, revision } => HfSourceView::Tree {
                repo: repo@,
                revision: revision@,
            },
            HfSource::Repo { repo } => HfSourceView::Repo { repo: repo@ },
        }
    }
}

/// Why a Hugging Face URL was refused.
#[derive(Debug, Clone, Copy, PartialEq, Eq)]
pub enum HfUrlError {
    /// The URL does not name a path on `huggingface.co`.
    NotHuggingFaceUrl,
    /// Fewer than two path components, or a marker (`tree`, `resolve`,
    /// `blob`) before the second component.
    InvalidRepositoryPath,
    /// A `resolve`/`blob` URL that ends at the marker.
    MissingRevision,
    /// A `resolve`/`blob` URL with a revision but no file path.
    MissingFilename,
}

/// `tree`, `resolve` or `blob`: the path components that end a repository name.
pub open spec fn is_marker(part: Seq<char>) -> bool {
    part == "tree"@ || part == "resolve"@ || part == "blob"@
}

/// The index of the first marker in `parts` at or after `from`.
pub open spec fn first_marker_from(parts: Seq<Seq<char>>, from: int) -> Option<int>
    decreases parts.len() - from,
{
    if from < 0 || from >= parts.len() {
        None
    } else if is_marker(parts[from]) {
        Some(from)
    } else {
        first_marker_from(parts, from + 1)
    }
}

/// The path part of a URL: scheme prefixes removed, query and fragment cut.
pub open spec fn hf_url_path(url: Seq<char>) -> Seq<char> {
    take_until_any(trim_start_all(trim_start_all(url, "https://"@), "http://"@), "?#"@)
}

/// What a Hugging Face URL denotes.
pub open spec fn spec_parse_hf_source(url: Seq<char>) -> Result<HfSourceView, HfUrlError> {
    let path = hf_url_path(url);
    if !has_prefix(path, "huggingface.co/"@) {
        Err(HfUrlError::NotHuggingFaceUrl)
    } else {
        let parts = segments(path.skip("huggingface.co/"@.len() as int), '/');
        if parts.len() < 2 {
            Err(HfUrlError::InvalidRepositoryPath)
        } else {
            match first_marker_from(parts, 0) {
                None => Ok(HfSourceView::Repo { repo: parts[0] + "/"@ + parts[1] }),
                Some(idx) => {
                    if idx < 2 {
                        Err(HfUrlError::InvalidRepositoryPath)
                    } else if parts[idx] == "tree"@ {
                        Ok(
                            HfSourceView::Tree {
                                repo: join_with(parts.take(idx), "/"@),
                                revision: if idx + 1 < parts.len() {
                                    parts[idx + 1]
                                } else {
                                    "main"@
                                },
                            },
                        )
                    } else if idx + 1 >= parts.len() {
                        Err(HfUrlError::MissingRevision)
                    } else if idx + 2 >= parts.len() {
                        Err(HfUrlError::MissingFilename)
                    } else {
                        Ok(
                            HfSourceView::File {
                                repo: join_with(parts.take(idx), "/"@),
                                revision: parts[idx + 1],
                                filename: join_with(parts.skip(idx + 2), "/"@),
                            },
                        )
                    }
                },
            }
        }
    }
}

/// The view of a parse result.
pub open spec fn hf_result_view(r: Result<HfSource, HfUrlError>) -> Result<HfSourceView, HfUrlError> {
    match r {
        Ok(s) => Ok(s@),
        Err(e) => Err(e),
    }
}

fn is_marker_exec(part: &Vec<char>) -> (r: bool)
    ensures
        r == is_marker(part@),
{
    chars_eq(part, &chars_of("tree")) || chars_eq(part, &chars_of("resolve")) || chars_eq(
        part,
        &chars_of("blob"),
    )
}

fn find_marker(parts: &Vec<Vec<char>>) -> (r: Option<usize>)
    ensures
        match r {
            Some(i) => i < parts.len() && first_marker_from(views(parts@), 0) == Some(i as int),
            None => first_marker_from(views(parts@), 0) is None,
        },
{
    let mut i: usize = 0;
    while i < parts.len()
        invariant
            i <= parts.len(),
            first_marker_from(views(parts@), 0) == first_marker_from(views(parts@), i as int),
        decreases parts.len() - i,
    {
        if is_marker_exec(&parts[i]) {
            return Some(i);
        }
        i += 1;
    }
    None
}

/// Parses a Hugging Face URL into the repository, revision and file it names.
pub fn parse_hf_source(url: &str) -> (r: Result<HfSource, HfUrlError>)
    ensures
        hf_result_view(r) == spec_parse_hf_source(url@),
{
    let u = chars_of(url);
    let https = chars_of("https://");
    let http = chars_of("http://");
    let host = chars_of("huggingface.co/");
    proof {
        reveal_strlit("https://");
        reveal_strlit("http://");
    }
    let t1 = trim_start_matches(&u, &https);
    let t2 = trim_start_matches(&t1, &http);
    let path = prefix_before_any(&t2, &chars_of("?#"));
    if !starts_with(&path, &host) {
        return Err(HfUrlError::NotHuggingFaceUrl);
    }
    let rest = slice_chars(&path, host.len(), path.len());
    assert(rest@ =~= path@.skip("huggingface.co/"@.len() as int));
    let parts = split_nonempty(&rest, '/');
    let ghost ps = views(parts@);
    if parts.len() < 2 {
        return Err(HfUrlError::InvalidRepositoryPath);
    }
    let slash = chars_of("/");
    match find_marker(&parts) {
        None => {
            let mut repo = parts[0].clone();
            push_all(&mut repo, &slash);
            push_all(&mut repo, &parts[1]);
            Ok(HfSource::Repo { repo: string_from_chars(&repo) })
        },
        Some(idx) => {
            if idx < 2 {
                return Err(HfUrlError::InvalidRepositoryPath);
            }
            let repo = join_range(&parts, 0, idx, &slash);
            assert(ps.subrange(0, idx as int) =~= ps.take(idx as int));
            if chars_eq(&parts[idx], &chars_of("tree")) {
                let revision = if idx + 1 < parts.len() {
                    string_from_chars(&parts[idx + 1])
                } else {
                    String::from_str("main")
                };
                Ok(HfSource::Tree { repo: string_from_chars(&repo), revision })
            } else if idx + 1 >= parts.len() {
                Err(HfUrlError::MissingRevision)
            } else if idx + 2 >= parts.len() {
                Err(HfUrlError::MissingFilename)
            } else {
                let filename = join_range(&parts, idx + 2, parts.len(), &slash);
                assert(ps.subrange(idx + 2, ps.len() as int) =~= ps.skip(idx + 2));
                Ok(
                    HfSource::File {
                        repo: string_from_chars(&repo),
                        revision: string_from_chars(&parts[idx + 1]),
                        filename: string_from_chars(&filename),
                    },
                )
            }
        },
    }
}


/// What to fetch: one file, or every file of a repository tree.
#[derive(Debug, Clone, PartialEq, Eq)]
pub enum DownloadRequest {
    Single { repo: String, revision: String, filename: String },
    Bundle { repo: String, revision: String },
}

/// The mathematical value of a [`DownloadRequest`].
pub enum DownloadRequestView {
    Single { repo: Seq<char>, revision: Seq<char>, filename: Seq<char> },
    Bundle { repo: Seq<char>, revision: Seq<char> },
}

impl View for DownloadRequest {
    type V = DownloadRequestView;

    open spec fn view(&self) -> DownloadRequestView {
        match self {
            DownloadRequest::Single { repo, revision, filename } => DownloadRequestView::Single {
                repo: repo@,
                revision: revision@,
                filename: filename@,
            },
            DownloadRequest::Bundle { repo, revision } => DownloadRequestView::Bundle {
                repo: repo@,
                revision: revision@,
            },
        }
    }
}

impl DownloadRequestView {
    /// The repository the request reads from.
    pub open spec fn repo(self) -> Seq<char> {
        match self {
            DownloadRequestView::Single { repo, .. } => repo,
            DownloadRequestView::Bundle { repo, .. } => repo,
        }
    }
}

impl DownloadRequest {
    /// The repository the request reads from.
    pub fn repo(&self) -> (r: &str)
        ensures
            r@ == self@.repo(),
    {
        match self {
            DownloadRequest::Single { repo, .. } => repo.as_str(),
            DownloadRequest::Bundle { repo, .. } => repo.as_str(),
        }
    }
}

/// The request that a source (a repository id or a Hugging Face URL) and an
/// optional file name stand for. A source that begins with `http` is parsed
/// as a URL; anything else is a repository id at revision `main`.
pub open spec fn spec_resolve_request(source: Seq<char>, file: Option<Seq<char>>) -> Result<
    DownloadRequestView,
    HfUrlError,
> {
    match file {
        Some(filename) => {
            if has_prefix(source, "http"@) {
                match spec_parse_hf_source(source) {
                    Err(e) => Err(e),
                    Ok(HfSourceView::File { repo, revision, .. }) => Ok(
                        DownloadRequestView::Single { repo, revision, filename },
                    ),
                    Ok(HfSourceView::Tree { repo, revision }) => Ok(
                        DownloadRequestView::Single { repo, revision, filename },
                    ),
                    Ok(HfSourceView::Repo { repo }) => Ok(
                        DownloadRequestView::Single { repo, revision: "main"@, filename },
                    ),
                }
            } else {
                Ok(DownloadRequestView::Single { repo: source, revision: "main"@, filename })
            }
        },
        None => {
            if has_prefix(source, "http"@) {
                match spec_parse_hf_source(source) {
                    Err(e) => Err(e),
                    Ok(HfSourceView::File { repo, revision, filename }) => Ok(
                        DownloadRequestView::Single { repo, revision, filename },
                    ),
                    Ok(HfSourceView::Tree { repo, revision }) => Ok(
                        DownloadRequestView::Bundle { repo, revision },
                    ),
                    Ok(HfSourceView::Repo { repo }) => Ok(
                        DownloadRequestView::Bundle { repo, revision: "main"@ },
                    ),
                }
            } else {
                Ok(DownloadRequestView::Bundle { repo: source, revision: "main"@ })
            }
        },
    }
}

/// The repository a parsed URL names.
pub open spec fn source_repo(s: HfSourceView) -> Seq<char> {
    match s {
        HfSourceView::File { repo, .. } => repo,
        HfSourceView::Tree { repo, .. } => repo,
        HfSourceView::Repo { repo } => repo,
    }
}

/// The revision a parsed URL names; `main` when it names none.
pub open spec fn source_revision(s: HfSourceView) -> Seq<char> {
    match s {
        HfSourceView::File { revision, .. } => revision,
        HfSourceView::Tree { revision, .. } => revision,
        HfSourceView::Repo { .. } => "main"@,
    }
}

/// The revision a request reads at.
pub open spec fn request_revision(q: DownloadRequestView) -> Seq<char> {
    match q {
        DownloadRequestView::Single { revision, .. } => revision,
        DownloadRequestView::Bundle { revision, .. } => revision,
    }
}

/// The file a request downloads, if it is for one file.
pub open spec fn request_file(q: DownloadRequestView) -> Option<Seq<char>> {
    match q {
        DownloadRequestView::Single { filename, .. } => Some(filename),
        DownloadRequestView::Bundle { .. } => None,
    }
}

/// A download request follows its source. A URL that does not parse is
/// refused with the parser's error. One that parses is requested from the
/// repository and at the revision the URL names (`main` when it names
/// none); the request is for the file given, else for the file the URL
/// names, else for the whole repository as a bundle. A source that is no
/// URL is the repository itself, at `main`, and is requested the same way.
pub proof fn law_request_follows_source(source: Seq<char>, file: Option<Seq<char>>)
    ensures
        has_prefix(source, "http"@) ==> match spec_parse_hf_source(source) {
            Err(e) => spec_resolve_request(source, file) == Err::<DownloadRequestView, HfUrlError>(e),
            Ok(s) => spec_resolve_request(source, file) is Ok && {
                let q = spec_resolve_request(source, file)->Ok_0;
                &&& q.repo() == source_repo(s)
                &&& request_revision(q) == source_revision(s)
                &&& request_file(q) == match file {
                    Some(f) => Some(f),
                    None => match s {
                        HfSourceView::File { filename, .. } => Some(filename),
                        _ => None,
                    },
                }
            },
        },
        !has_prefix(source, "http"@) ==> spec_resolve_request(source, file) is Ok && {
            let q = spec_resolve_request(source, file)->Ok_0;
            &&& q.repo() == source
            &&& request_revision(q) == "main"@
            &&& request_file(q) == file
        },
{
}

/// The view of a request result.
pub open spec fn request_result_view(r: Result<DownloadRequest, HfUrlError>) -> Result<
    DownloadRequestView,
    HfUrlError,
> {
    match r {
        Ok(q) => Ok(q@),
        Err(e) => Err(e),
    }
}

/// Turns a source and an optional file name into a download request.
pub fn resolve_request(source: &str, file: Option<&str>) -> (r: Result<DownloadRequest, HfUrlError>)
    ensures
        request_result_view(r) == spec_resolve_request(
            source@,
            match file {
                Some(f) => Some(f@),
                None => None,
            },
        ),
{
    let src = chars_of(source);
    let is_url = starts_with(&src, &chars_of("http"));
    match file {
        Some(filename) => {
            if is_url {
                let (repo, revision) = match parse_hf_source(source)? {
                    HfSource::File { repo, revision, .. } => (repo, revision),
                    HfSource::Tree { repo, revision } => (repo, revision),
                    HfSource::Repo { repo } => (repo, String::from_str("main")),
                };
                Ok(DownloadRequest::Single { repo, revision, filename: String::from_str(filename) })
            } else {
                Ok(
                    DownloadRequest::Single {
                        repo: String::from_str(source),
                        revision: String::from_str("main"),
                        filename: String::from_str(filename),
                    },
                )
            }
        },
        None => {
            if is_url {
                match parse_hf_source(source)? {
                    HfSource::File { repo, revision, filename } => Ok(
                        DownloadRequest::Single { repo, revision, filename },
                    ),
                    HfSource::Tree { repo, revision } => Ok(
                        DownloadRequest::Bundle { repo, revision },
                    ),
                    HfSource::Repo { repo } => Ok(
                        DownloadRequest::Bundle { repo, revision: String::from_str("main") },
                    ),
                }
            } else {
                Ok(
                    DownloadRequest::Bundle {
                        repo: String::from_str(source),
                        revision: String::from_str("main"),
                    },
                )
            }
        },
    }
}

/// The URL of one file of a repository at a revision.
pub open spec fn spec_resolve_url(repo: Seq<char>, revision: Seq<char>, filename: Seq<char>) -> Seq<
    char,
> {
    "https://huggingface.co/"@ + repo + "/resolve/"@ + revision + "/"@ + filename
}

/// The download URL of `filename` in `repo` at `revision`.
pub fn build_resolve_url(repo: &str, revision: &str, filename: &str) -> (r: String)
    ensures
        r@ == spec_resolve_url(repo@, revision@, filename@),
{
    let mut url = String::from_str("https://huggingface.co/");
    url.append(repo);
    url.append("/resolve/");
    url.append(revision);
    url.append("/");
    url.append(filename);
    url
}


/// A path component that survives a URL unchanged: non-empty and free of
/// `/`, `?` and `#`.
pub open spec fn plain_component(x: Seq<char>) -> bool {
    x.len() > 0 && !has_char(x, '/') && !has_char(x, '?') && !has_char(x, '#')
}

proof fn lemma_first_marker_skips(parts: Seq<Seq<char>>, i: int, k: int)
    requires
        0 <= i <= k <= parts.len(),
        forall|j: int| i <= j < k ==> !is_marker(#[trigger] parts[j]),
    ensures
        first_marker_from(parts, i) == first_marker_from(parts, k),
    decreases k - i,
{
    if i < k {
        lemma_first_marker_skips(parts, i + 1, k);
    }
}

/// A file URL made by [`build_resolve_url`] parses back, by
/// [`parse_hf_source`], into the repository, revision and file path it was
/// made from, whenever the repository has at least two components and none
/// of them is `tree`, `resolve` or `blob`, the file path has at least one
/// component, and every component of the three is non-empty and free of
/// `/`, `?` and `#`.
pub proof fn law_resolve_url_round_trip(
    repo_parts: Seq<Seq<char>>,
    revision: Seq<char>,
    file_parts: Seq<Seq<char>>,
)
    requires
        repo_parts.len() >= 2,
        forall|i: int|
            0 <= i < repo_parts.len() ==> plain_component(#[trigger] repo_parts[i]) && !is_marker(
                repo_parts[i],
            ),
        plain_component(revision),
        file_parts.len() >= 1,
        forall|i: int| 0 <= i < file_parts.len() ==> plain_component(#[trigger] file_parts[i]),
    ensures
        spec_parse_hf_source(
            spec_resolve_url(join_with(repo_parts, "/"@), revision, join_with(file_parts, "/"@)),
        ) == Ok::<HfSourceView, HfUrlError>(
            HfSourceView::File {
                repo: join_with(repo_parts, "/"@),
                revision,
                filename: join_with(file_parts, "/"@),
            },
        ),
{
    reveal_strlit("https://");
    reveal_strlit("http://");
    reveal_strlit("huggingface.co/");
    reveal_strlit("https://huggingface.co/");
    reveal_strlit("/resolve/");
    reveal_strlit("/");
    reveal_strlit("?#");
    reveal_strlit("resolve");
    reveal_strlit("tree");
    reveal_strlit("blob");
    let sl = seq!['/'];
    assert("/"@ =~= sl);
    let r = join_with(repo_parts, "/"@);
    let f = join_with(file_parts, "/"@);
    let rs = "resolve"@;
    let url = spec_resolve_url(r, revision, f);
    let host = "huggingface.co/"@;
    let p = r + sl + (rs + sl + (revision + sl + f));
    let x = host + p;
    assert("/resolve/"@ =~= sl + rs + sl);
    assert(url =~= "https://"@ + x);
    // The scheme goes, and only once: what follows starts with "hu".
    assert(url.skip("https://"@.len() as int) =~= x);
    assert(url.take("https://"@.len() as int) =~= "https://"@);
    assert(x[1] == 'u');
    assert(!has_prefix(x, "https://"@)) by {
        if has_prefix(x, "https://"@) {
            assert(x.take(8)[1] == 't');
        }
    }
    assert(!has_prefix(x, "http://"@)) by {
        if has_prefix(x, "http://"@) {
            assert(x.take(7)[1] == 't');
        }
    }
    assert(trim_start_all(x, "https://"@) == x);
    assert(trim_start_all(url, "https://"@) == x);
    // No '?' or '#' anywhere, so nothing is cut.
    assert forall|i: int| 0 <= i < repo_parts.len() implies !has_char(#[trigger] repo_parts[i], '?')
        && !has_char(repo_parts[i], '#') by {
        assert(plain_component(repo_parts[i]));
    }
    assert forall|i: int| 0 <= i < file_parts.len() implies !has_char(#[trigger] file_parts[i], '?')
        && !has_char(file_parts[i], '#') by {
        assert(plain_component(file_parts[i]));
    }
    assert forall|c: char| c == '?' || c == '#' implies !has_char(x, c) by {
        assert forall|i: int| 0 <= i < repo_parts.len() implies !has_char(
            #[trigger] repo_parts[i],
            c,
        ) by {
            assert(plain_component(repo_parts[i]));
        }
        assert forall|i: int| 0 <= i < file_parts.len() implies !has_char(
            #[trigger] file_parts[i],
            c,
        ) by {
            assert(plain_component(file_parts[i]));
        }
        assert(!has_char(sl, c)) by {
            if has_char(sl, c) {
                let k = choose|k: int| 0 <= k < sl.len() && sl[k] == c;
                assert(sl[k] == '/');
            }
        }
        assert(!has_char(rs, c)) by {
            if has_char(rs, c) {
                let k = choose|k: int| 0 <= k < rs.len() && rs[k] == c;
            }
        }
        assert(!has_char(host, c)) by {
            if has_char(host, c) {
                let k = choose|k: int| 0 <= k < host.len() && host[k] == c;
            }
        }
        lemma_join_without_char(repo_parts, "/"@, c);
        lemma_join_without_char(file_parts, "/"@, c);
        lemma_no_char_concat(revision, sl, c);
        lemma_no_char_concat(revision + sl, f, c);
        lemma_no_char_concat(rs, sl, c);
        lemma_no_char_concat(rs + sl, revision + sl + f, c);
        lemma_no_char_concat(r, sl, c);
        lemma_no_char_concat(r + sl, rs + sl + (revision + sl + f), c);
        lemma_no_char_concat(host, p, c);
    }
    assert forall|j: int| 0 <= j < x.len() implies !"?#"@.contains(#[trigger] x[j]) by {
        if "?#"@.contains(x[j]) {
            let k = choose|k: int| 0 <= k < "?#"@.len() && "?#"@[k] == x[j];
            assert(x[j] == '?' || x[j] == '#');
            assert(has_char(x, x[j]));
        }
    }
    lemma_take_until_any_at(x, "?#"@, x.len() as int);
    assert(x.subrange(0, x.len() as int) =~= x);
    assert(hf_url_path(url) == x);
    assert(x.take(host.len() as int) =~= host);
    assert(x.skip(host.len() as int) =~= p);
    // The path splits into the repository parts, the marker, the revision
    // and the file parts.
    assert forall|i: int| 0 <= i < repo_parts.len() implies #[trigger] repo_parts[i].len() > 0
        && !has_char(repo_parts[i], '/') by {
        assert(plain_component(repo_parts[i]));
    }
    assert forall|i: int| 0 <= i < file_parts.len() implies #[trigger] file_parts[i].len() > 0
        && !has_char(file_parts[i], '/') by {
        assert(plain_component(file_parts[i]));
    }
    lemma_segments_of_join(repo_parts, '/');
    lemma_segments_of_join(file_parts, '/');
    assert(!has_char(rs, '/')) by {
        if has_char(rs, '/') {
            let k = choose|k: int| 0 <= k < rs.len() && rs[k] == '/';
        }
    }
    lemma_segments_single(rs, '/');
    lemma_segments_single(revision, '/');
    lemma_segments_around_sep(revision, f, '/');
    lemma_segments_around_sep(rs, revision + sl + f, '/');
    lemma_segments_around_sep(r, rs + sl + (revision + sl + f), '/');
    let parts = segments(p, '/');
    assert(parts =~= repo_parts + seq![rs] + seq![revision] + file_parts);
    let n = repo_parts.len() as int;
    assert forall|j: int| 0 <= j < n implies !is_marker(#[trigger] parts[j]) by {
        assert(parts[j] == repo_parts[j]);
    }
    lemma_first_marker_skips(parts, 0, n);
    assert(parts[n] == rs);
    assert(is_marker(parts[n]));
    assert(first_marker_from(parts, 0) == Some(n));
    assert(rs != "tree"@) by {
        assert(rs[0] != "tree"@[0]);
    }
    assert(parts.take(n) =~= repo_parts);
    assert(parts.skip(n + 2) =~= file_parts);
}

/// A file URL made by [`build_resolve_url`] for a repository `owner/name`
/// parses back into that repository, the revision and the file path,
/// whenever the owner, the name and the revision are non-empty and free of
/// `/`, `?` and `#`, the owner and the name are not `tree`, `resolve` or
/// `blob`, and the file path is free of `?` and `#` and has no empty piece
/// between its `/`.
pub proof fn law_resolve_url_round_trip_text(owner: Seq<char>, name: Seq<char>, revision: Seq<char>, file: Seq<char>)
    requires
        plain_component(owner),
        !is_marker(owner),
        plain_component(name),
        !is_marker(name),
        plain_component(revision),
        no_empty_segments(file, '/'),
        !has_char(file, '?'),
        !has_char(file, '#'),
    ensures
        spec_parse_hf_source(spec_resolve_url(owner + "/"@ + name, revision, file)) == Ok::<
            HfSourceView,
            HfUrlError,
        >(HfSourceView::File { repo: owner + "/"@ + name, revision, filename: file }),
{
    reveal_strlit("/");
    assert("/"@ =~= seq!['/']);
    let repo_parts = seq![owner, name];
    assert(repo_parts.drop_last() =~= seq![owner]);
    assert(join_with(seq![owner], "/"@) == owner);
    assert(repo_parts.last() == name);
    assert(join_with(repo_parts, "/"@) == join_with(repo_parts.drop_last(), "/"@) + "/"@ + repo_parts.last());
    assert(join_with(repo_parts, "/"@) == owner + "/"@ + name);
    let file_parts = segments(file, '/');
    lemma_join_of_segments(file, '/');
    lemma_segments_plain(file, '/');
    assert forall|i: int| 0 <= i < file_parts.len() implies plain_component(#[trigger] file_parts[i]) by {
        if has_char(file_parts[i], '?') {
            lemma_char_in_join(file_parts, "/"@, i, '?');
        }
        if has_char(file_parts[i], '#') {
            lemma_char_in_join(file_parts, "/"@, i, '#');
        }
    }
    law_resolve_url_round_trip(repo_parts, revision, file_parts);
}


/// A listing looks like an MLX bundle: it holds a `.safetensors` file or a
/// `model.safetensors.index.json`.
pub open spec fn spec_looks_like_mlx_bundle(files: Seq<Seq<char>>) -> bool {
    exists|i: int|
        0 <= i < files.len() && (has_suffix(files[i], ".safetensors"@) || files[i]
            == "model.safetensors.index.json"@)
}

/// Whether the downloaded files look like an MLX bundle.
pub fn looks_like_mlx_bundle(files: &[String]) -> (r: bool)
    ensures
        r == spec_looks_like_mlx_bundle(string_views(files@)),
{
    let suffix = chars_of(".safetensors");
    let index = chars_of("model.safetensors.index.json");
    let mut i: usize = 0;
    while i < files.len()
        invariant
            i <= files.len(),
            suffix@ == ".safetensors"@,
            index@ == "model.safetensors.index.json"@,
            forall|j: int|
                0 <= j < i ==> !(has_suffix(#[trigger] string_views(files@)[j], ".safetensors"@)
                    || string_views(files@)[j] == "model.safetensors.index.json"@),
        decreases files.len() - i,
    {
        let f = chars_of(files[i].as_str());
        if ends_with(&f, &suffix) || chars_eq(&f, &index) {
            assert(string_views(files@)[i as int] == f@);
            return true;
        }
        i += 1;
    }
    false
}

/// One entry of a repository tree listing.
#[derive(Debug, Clone, PartialEq, Eq)]
pub struct TreeEntry {
    /// `file` or `directory`.
    pub entry_type: String,
    pub path: String,
}

/// The paths of the file entries of a tree listing, in listing order.
pub open spec fn spec_repo_files(entries: Seq<TreeEntry>) -> Seq<Seq<char>>
    decreases entries.len(),
{
    if entries.len() == 0 {
        Seq::empty()
    } else if entries.last().entry_type@ == "file"@ {
        spec_repo_files(entries.drop_last()).push(entries.last().path@)
    } else {
        spec_repo_files(entries.drop_last())
    }
}

/// The files of a repository, from its tree listing.
pub fn repo_files(entries: &Vec<TreeEntry>) -> (r: Vec<String>)
    ensures
        string_views(r@) == spec_repo_files(entries@),
{
    let file = chars_of("file");
    let mut r: Vec<String> = Vec::new();
    let mut i: usize = 0;
    while i < entries.len()
        invariant
            i <= entries.len(),
            file@ == "file"@,
            string_views(r@) == spec_repo_files(entries@.take(i as int)),
        decreases entries.len() - i,
    {
        assert(entries@.take(i + 1).drop_last() =~= entries@.take(i as int));
        if chars_eq(&chars_of(entries[i].entry_type.as_str()), &file) {
            let ghost old_r = r@;
            let p = entries[i].path.clone();
            r.push(p);
            assert(string_views(r@) =~= string_views(old_r).push(p@));
        }
        i += 1;
    }
    assert(entries@.take(entries.len() as int) =~= entries@);
    r
}

/// The `weight_map` of a bundle's `model.safetensors.index.json`.
#[derive(Debug, Clone, PartialEq, Eq)]
pub enum WeightMap {
    /// An object: the value of each entry, `None` where it is not a string.
    Object(Vec<Option<String>>),
    /// Something other than an object.
    NotObject,
}

/// Why a downloaded bundle was refused.
#[derive(Debug, Clone, PartialEq, Eq)]
pub enum BundleError {
    /// `weight_map` is not an object.
    WeightMapNotObject,
    /// A shard file name in `weight_map` is not a string.
    ShardNotString,
    /// These required files are absent.
    Missing(Vec<String>),
}

/// The files every MLX bundle holds.
pub open spec fn required_bundle_files() -> Seq<Seq<char>> {
    seq!["config.json"@, "tokenizer_config.json"@, "model.safetensors.index.json"@]
}

/// Names in `present`, taken as relative paths of what exists in the bundle directory.
pub open spec fn is_present(present: Seq<Seq<char>>, name: Seq<char>) -> bool {
    present.contains(name)
}

/// The distinct elements of `s`, each at its first occurrence.
pub open spec fn dedup_first(s: Seq<Seq<char>>) -> Seq<Seq<char>>
    decreases s.len(),
{
    if s.len() == 0 {
        Seq::empty()
    } else if dedup_first(s.drop_last()).contains(s.last()) {
        dedup_first(s.drop_last())
    } else {
        dedup_first(s.drop_last()).push(s.last())
    }
}

/// The elements of `names` that are not present.
pub open spec fn absent(names: Seq<Seq<char>>, present: Seq<Seq<char>>) -> Seq<Seq<char>>
    decreases names.len(),
{
    if names.len() == 0 {
        Seq::empty()
    } else if is_present(present, names.last()) {
        absent(names.drop_last(), present)
    } else {
        absent(names.drop_last(), present).push(names.last())
    }
}

/// A top-level entry named like a weight shard, `model-*.safetensors`.
pub open spec fn is_weight_shard_entry(name: Seq<char>) -> bool {
    !has_char(name, '/') && has_prefix(name, "model-"@) && has_suffix(name, ".safetensors"@)
}

/// The shard names of a weight map whose values are all strings.
pub open spec fn shard_names(vals: Seq<Option<String>>) -> Seq<Seq<char>> {
    vals.map_values(|v: Option<String>| v.unwrap()@)
}

/// The outcome of checking a bundle directory: `present` holds the names,
/// among those the check asks about ([`spec_bundle_probe_names`]), that
/// exist as paths under the directory; `entries` holds the names of the
/// directory's own entries; and the index, when it exists, has the weight
/// map `weight_map` (`None`: the index has no `weight_map`).
pub open spec fn spec_check_mlx_bundle(
    present: Seq<Seq<char>>,
    entries: Seq<Seq<char>>,
    weight_map: Option<WeightMap>,
) -> Result<
    Seq<Seq<char>>,
    BundleError,
> {
    let required = absent(required_bundle_files(), present);
    let tokenizer = if is_present(present, "tokenizer.json"@) || is_present(
        present,
        "tokenizer.model"@,
    ) || is_present(present, "vocab.json"@) {
        Seq::empty()
    } else {
        seq!["tokenizer.json|tokenizer.model|vocab.json"@]
    };
    let weights = if exists|i: int| 0 <= i < entries.len() && is_weight_shard_entry(entries[i]) {
        Seq::empty()
    } else {
        seq!["model-*.safetensors"@]
    };
    if !is_present(present, "model.safetensors.index.json"@) {
        Ok(required + tokenizer + weights)
    } else {
        match weight_map {
            None => Ok(required + tokenizer + weights),
            Some(WeightMap::NotObject) => Err(BundleError::WeightMapNotObject),
            Some(WeightMap::Object(vals)) => {
                if exists|i: int| 0 <= i < vals.len() && vals[i] is None {
                    Err(BundleError::ShardNotString)
                } else {
                    Ok(
                        required + tokenizer + absent(dedup_first(shard_names(vals@)), present)
                            + weights,
                    )
                }
            },
        }
    }
}

/// The names the bundle check asks about: the required files, the three
/// tokenizer files and, when the weight map is an object of strings, its
/// shards, each once in the order first listed.
pub open spec fn spec_bundle_probe_names(weight_map: Option<WeightMap>) -> Seq<Seq<char>> {
    required_bundle_files() + seq!["tokenizer.json"@, "tokenizer.model"@, "vocab.json"@] + match weight_map {
        Some(WeightMap::Object(vals)) => if has_non_string_shard(weight_map) {
            Seq::empty()
        } else {
            dedup_first(shard_names(vals@))
        },
        _ => Seq::empty(),
    }
}

fn push_view(out: &mut Vec<Vec<char>>, x: Vec<char>)
    ensures
        views(final(out)@) == views(old(out)@).push(x@),
{
    let ghost before = views(out@);
    out.push(x);
    assert(views(out@) =~= before.push(x@));
}

/// The names whose existence under a bundle directory the bundle check
/// needs, given the weight map of its index.
pub fn bundle_probe_names(weight_map: &Option<WeightMap>) -> (r: Vec<String>)
    ensures
        string_views(r@) == spec_bundle_probe_names(*weight_map),
{
    let mut names: Vec<Vec<char>> = Vec::new();
    push_view(&mut names, chars_of("config.json"));
    push_view(&mut names, chars_of("tokenizer_config.json"));
    push_view(&mut names, chars_of("model.safetensors.index.json"));
    push_view(&mut names, chars_of("tokenizer.json"));
    push_view(&mut names, chars_of("tokenizer.model"));
    push_view(&mut names, chars_of("vocab.json"));
    let ghost base = views(names@);
    assert(base =~= required_bundle_files() + seq!["tokenizer.json"@, "tokenizer.model"@, "vocab.json"@]);
    if let Some(WeightMap::Object(vals)) = weight_map {
        let mut all = true;
        let mut i: usize = 0;
        while i < vals.len()
            invariant
                i <= vals.len(),
                all == forall|j: int| 0 <= j < i ==> vals@[j] is Some,
            decreases vals.len() - i,
        {
            if vals[i].is_none() {
                all = false;
            }
            i += 1;
        }
        if all {
            let mut shards: Vec<Vec<char>> = Vec::new();
            let mut k: usize = 0;
            while k < vals.len()
                invariant
                    k <= vals.len(),
                    forall|j: int| 0 <= j < vals.len() ==> vals@[j] is Some,
                    views(shards@) == dedup_first(shard_names(vals@.take(k as int))),
                decreases vals.len() - k,
            {
                assert(shard_names(vals@.take(k + 1)).drop_last() =~= shard_names(vals@.take(k as int)));
                if let Some(name) = &vals[k] {
                    let c = chars_of(name.as_str());
                    if !contains_chars(&shards, &c) {
                        push_view(&mut shards, c);
                    }
                }
                k += 1;
            }
            assert(vals@.take(vals.len() as int) =~= vals@);
            let mut m: usize = 0;
            while m < shards.len()
                invariant
                    m <= shards.len(),
                    views(names@) == base + views(shards@).take(m as int),
                decreases shards.len() - m,
            {
                assert(views(shards@).take(m + 1) =~= views(shards@).take(m as int).push(shards@[m as int]@));
                push_view(&mut names, shards[m].clone());
                m += 1;
            }
            assert(views(shards@).take(shards.len() as int) =~= views(shards@));
        } else {
            assert(base + Seq::<Seq<char>>::empty() =~= base);
        }
    } else {
        assert(base + Seq::<Seq<char>>::empty() =~= base);
    }
    chars_to_strings(&names)
}

/// The view of a bundle check result: `Ok` with nothing missing, or the error.
pub open spec fn bundle_result_matches(
    r: Result<(), BundleError>,
    spec: Result<Seq<Seq<char>>, BundleError>,
) -> bool {
    match spec {
        Ok(missing) => if missing.len() == 0 {
            r is Ok
        } else {
            r matches Err(BundleError::Missing(m)) && string_views(m@) == missing
        },
        Err(e) => r == Err::<(), BundleError>(e),
    }
}

fn push_if_absent(out: &mut Vec<Vec<char>>, present: &Vec<Vec<char>>, name: Vec<char>)
    ensures
        views(final(out)@) == if views(present@).contains(name@) {
            views(old(out)@)
        } else {
            views(old(out)@).push(name@)
        },
{
    if !contains_chars(present, &name) {
        let ghost before = views(out@);
        out.push(name);
        assert(views(out@) =~= before.push(name@));
    }
}

proof fn lemma_absent_push(names: Seq<Seq<char>>, present: Seq<Seq<char>>, x: Seq<char>)
    ensures
        absent(names.push(x), present) == if is_present(present, x) {
            absent(names, present)
        } else {
            absent(names, present).push(x)
        },
{
    assert(names.push(x).drop_last() =~= names);
}

/// Checks that a downloaded MLX bundle holds its configuration, tokenizer,
/// index and weight shards.
#[verifier::loop_isolation(false)]
pub fn check_mlx_bundle(present: &Vec<String>, entries: &Vec<String>, weight_map: &Option<WeightMap>) -> (r: Result<
    (),
    BundleError,
>)
    ensures
        bundle_result_matches(r, spec_check_mlx_bundle(string_views(present@), string_views(entries@), *weight_map)),
{
    let pres = strings_to_chars(present.as_slice());
    let ghost ps = views(pres@);
    assert(ps == string_views(present@));
    let mut missing: Vec<Vec<char>> = Vec::new();
    let config = chars_of("config.json");
    let tok_cfg = chars_of("tokenizer_config.json");
    let index = chars_of("model.safetensors.index.json");
    proof { lemma_absent_push(Seq::empty(), ps, config@); }
    assert(seq![config@] =~= Seq::<Seq<char>>::empty().push(config@));
    push_if_absent(&mut missing, &pres, config);
    proof { lemma_absent_push(seq!["config.json"@], ps, tok_cfg@); }
    assert(seq!["config.json"@, tok_cfg@] =~= seq!["config.json"@].push(tok_cfg@));
    push_if_absent(&mut missing, &pres, tok_cfg);
    proof {
        lemma_absent_push(seq!["config.json"@, "tokenizer_config.json"@], ps, index@);
        assert(required_bundle_files() =~= seq!["config.json"@, "tokenizer_config.json"@].push(index@));
    }
    let has_index = contains_chars(&pres, &index);
    push_if_absent(&mut missing, &pres, index);
    let ghost required = views(missing@);
    assert(required == absent(required_bundle_files(), ps));
    let has_tokenizer = contains_chars(&pres, &chars_of("tokenizer.json")) || contains_chars(
        &pres,
        &chars_of("tokenizer.model"),
    ) || contains_chars(&pres, &chars_of("vocab.json"));
    if !has_tokenizer {
        let ghost before = views(missing@);
        let alt = chars_of("tokenizer.json|tokenizer.model|vocab.json");
        missing.push(alt);
        assert(views(missing@) =~= before.push(alt@));
    }
    let ghost with_tokenizer = views(missing@);
    if has_index {
        match weight_map {
            None => {},
            Some(WeightMap::NotObject) => {
                return Err(BundleError::WeightMapNotObject);
            },
            Some(WeightMap::Object(vals)) => {
                let mut names: Vec<Vec<char>> = Vec::new();
                let mut i: usize = 0;
                while i < vals.len()
                    invariant
                        i <= vals.len(),
                        forall|j: int| 0 <= j < i ==> vals@[j] is Some,
                        views(names@) == dedup_first(shard_names(vals@.take(i as int))),
                    decreases vals.len() - i,
                {
                    assert(shard_names(vals@.take(i + 1)).drop_last() =~= shard_names(
                        vals@.take(i as int),
                    ));
                    match &vals[i] {
                        None => {
                            assert(vals[i as int] is None);
                            return Err(BundleError::ShardNotString);
                        },
                        Some(name) => {
                            let c = chars_of(name.as_str());
                            if !contains_chars(&names, &c) {
                                let ghost before = views(names@);
                                names.push(c);
                                assert(views(names@) =~= before.push(c@));
                            }
                        },
                    }
                    i += 1;
                }
                assert(vals@.take(vals.len() as int) =~= vals@);
                let mut k: usize = 0;
                let ghost base = views(missing@);
                while k < names.len()
                    invariant
                        k <= names.len(),
                        ps == views(pres@),
                        views(missing@) == base + absent(views(names@).take(k as int), ps),
                    decreases names.len() - k,
                {
                    proof {
                        lemma_absent_push(views(names@).take(k as int), ps, views(names@)[k as int]);
                        assert(views(names@).take(k + 1) =~= views(names@).take(k as int).push(
                            views(names@)[k as int],
                        ));
                    }
                    let ghost before = views(missing@);
                    push_if_absent(&mut missing, &pres, names[k].clone());
                    proof {
                        if !is_present(ps, views(names@)[k as int]) {
                            assert(views(missing@) =~= base + absent(
                                views(names@).take(k + 1),
                                ps,
                            ));
                        }
                    }
                    k += 1;
                }
                assert(views(names@).take(names.len() as int) =~= views(names@));
            },
        }
    }
    let ghost before_weights = views(missing@);
    let ents = strings_to_chars(entries.as_slice());
    let ghost es = views(ents@);
    assert(es == string_views(entries@));
    let model_prefix = chars_of("model-");
    let shard_suffix = chars_of(".safetensors");
    let mut found = false;
    let mut j: usize = 0;
    while j < ents.len()
        invariant
            j <= ents.len(),
            es == views(ents@),
            model_prefix@ == "model-"@,
            shard_suffix@ == ".safetensors"@,
            found == exists|t: int| 0 <= t < j && is_weight_shard_entry(es[t]),
        decreases ents.len() - j,
    {
        assert(es[j as int] == ents@[j as int]@);
        if !contains_char(&ents[j], '/') && starts_with(&ents[j], &model_prefix) && ends_with(
            &ents[j],
            &shard_suffix,
        ) {
            assert(is_weight_shard_entry(es[j as int]));
            found = true;
        }
        j += 1;
    }
    if !found {
        let g = chars_of("model-*.safetensors");
        missing.push(g);
        assert(views(missing@) =~= before_weights.push(g@));
        assert(seq![g@] =~= Seq::<Seq<char>>::empty().push(g@));
    }
    proof {
        let weights = if exists|i: int| 0 <= i < es.len() && is_weight_shard_entry(es[i]) {
            Seq::<Seq<char>>::empty()
        } else {
            seq!["model-*.safetensors"@]
        };
        assert(views(missing@) =~= before_weights + weights);
        if !has_tokenizer {
            assert(with_tokenizer =~= required + seq!["tokenizer.json|tokenizer.model|vocab.json"@]);
        } else {
            assert(with_tokenizer =~= required + Seq::<Seq<char>>::empty());
        }
    }
    if missing.len() == 0 {
        Ok(())
    } else {
        Err(BundleError::Missing(chars_to_strings(&missing)))
    }
}

/// The entries of `names` that are absent are exactly the names that are
/// absent.
proof fn lemma_absent_contains(names: Seq<Seq<char>>, present: Seq<Seq<char>>, x: Seq<char>)
    ensures
        absent(names, present).contains(x) <==> names.contains(x) && !present.contains(x),
    decreases names.len(),
{
    if names.len() > 0 {
        let d = names.drop_last();
        lemma_absent_contains(d, present, x);
        assert(names =~= d.push(names.last()));
        if d.contains(x) {
            let k = choose|k: int| 0 <= k < d.len() && d[k] == x;
            assert(names[k] == x);
        }
        if names.contains(x) && x != names.last() {
            let k = choose|k: int| 0 <= k < names.len() && names[k] == x;
            assert(d[k] == x);
        }
        if absent(d, present).contains(x) {
            let a = absent(d, present);
            let k = choose|k: int| 0 <= k < a.len() && a[k] == x;
            if !is_present(present, names.last()) {
                assert(a.push(names.last())[k] == x);
            }
        }
        if !is_present(present, names.last()) {
            assert(absent(d, present).push(names.last())[absent(d, present).len() as int] == names.last());
        }
    }
}

/// Dropping repeats keeps the same elements.
proof fn lemma_dedup_contains(names: Seq<Seq<char>>, x: Seq<char>)
    ensures
        dedup_first(names).contains(x) <==> names.contains(x),
    decreases names.len(),
{
    if names.len() > 0 {
        let d = names.drop_last();
        lemma_dedup_contains(d, x);
        let dd = dedup_first(d);
        if d.contains(x) {
            let k = choose|k: int| 0 <= k < d.len() && d[k] == x;
            assert(names[k] == x);
        }
        if names.contains(x) && x != names.last() {
            let k = choose|k: int| 0 <= k < names.len() && names[k] == x;
            assert(d[k] == x);
        }
        if !dd.contains(names.last()) {
            assert(dd.push(names.last())[dd.len() as int] == names.last());
            if dd.contains(x) {
                let k = choose|k: int| 0 <= k < dd.len() && dd[k] == x;
                assert(dd.push(names.last())[k] == x);
            }
        }
        assert(names[names.len() - 1] == names.last());
    }
}

/// No tokenizer file is present.
pub open spec fn lacks_tokenizer(present: Seq<Seq<char>>) -> bool {
    !present.contains("tokenizer.json"@) && !present.contains("tokenizer.model"@) && !present.contains(
        "vocab.json"@,
    )
}

/// No entry of the directory is a `model-*.safetensors` shard.
pub open spec fn lacks_weights(entries: Seq<Seq<char>>) -> bool {
    forall|i: int| 0 <= i < entries.len() ==> !is_weight_shard_entry(#[trigger] entries[i])
}

/// The shards the weight map names, when the index is present and its
/// weight map is an object.
pub open spec fn listed_shards(present: Seq<Seq<char>>, weight_map: Option<WeightMap>) -> Seq<Seq<char>> {
    if present.contains("model.safetensors.index.json"@) {
        match weight_map {
            Some(WeightMap::Object(vals)) => shard_names(vals@),
            _ => Seq::empty(),
        }
    } else {
        Seq::empty()
    }
}

/// `x` names something the bundle lacks: a required file, the tokenizer
/// (by the name listing its three forms), a weight shard (by the pattern)
/// or a shard of the weight map.
pub open spec fn bundle_lacks(present: Seq<Seq<char>>, entries: Seq<Seq<char>>, weight_map: Option<WeightMap>, x: Seq<char>) -> bool {
    ||| required_bundle_files().contains(x) && !present.contains(x)
    ||| x == "tokenizer.json|tokenizer.model|vocab.json"@ && lacks_tokenizer(present)
    ||| x == "model-*.safetensors"@ && lacks_weights(entries)
    ||| listed_shards(present, weight_map).contains(x) && !present.contains(x)
}

/// The bundle lacks nothing: its required files, a tokenizer, a weight
/// shard and every shard of its weight map are present.
pub open spec fn bundle_complete(present: Seq<Seq<char>>, entries: Seq<Seq<char>>, weight_map: Option<WeightMap>) -> bool {
    &&& forall|k: int| 0 <= k < required_bundle_files().len() ==> present.contains(#[trigger] required_bundle_files()[k])
    &&& !lacks_tokenizer(present)
    &&& !lacks_weights(entries)
    &&& forall|k: int|
        0 <= k < listed_shards(present, weight_map).len() ==> present.contains(
            #[trigger] listed_shards(present, weight_map)[k],
        )
}

/// The weight map is an object with a shard name that is no string.
pub open spec fn has_non_string_shard(weight_map: Option<WeightMap>) -> bool {
    match weight_map {
        Some(WeightMap::Object(vals)) => exists|i: int| 0 <= i < vals.len() && vals[i] is None,
        _ => false,
    }
}

/// A bundle check refuses a weight map that is no object, or one with a
/// shard name that is no string; otherwise the bundle passes exactly when
/// it lacks nothing, and the refusal names each thing it lacks and nothing
/// else.
pub proof fn law_bundle_missing_exact(present: Seq<Seq<char>>, entries: Seq<Seq<char>>, weight_map: Option<WeightMap>)
    ensures
        present.contains("model.safetensors.index.json"@) && weight_map == Some(WeightMap::NotObject)
            ==> spec_check_mlx_bundle(present, entries, weight_map) == Err::<Seq<Seq<char>>, BundleError>(
            BundleError::WeightMapNotObject,
        ),
        present.contains("model.safetensors.index.json"@) && has_non_string_shard(weight_map)
            ==> spec_check_mlx_bundle(present, entries, weight_map) == Err::<Seq<Seq<char>>, BundleError>(
            BundleError::ShardNotString,
        ),
        spec_check_mlx_bundle(present, entries, weight_map) is Err ==> present.contains("model.safetensors.index.json"@) && (
        weight_map == Some(WeightMap::NotObject) || has_non_string_shard(weight_map)),
        match spec_check_mlx_bundle(present, entries, weight_map) {
            Ok(missing) => (missing.len() == 0 <==> bundle_complete(present, entries, weight_map)) && forall|x: Seq<char>|
                #[trigger] missing.contains(x) <==> bundle_lacks(present, entries, weight_map, x),
            Err(_) => true,
        },
{
    reveal_strlit("model.safetensors.index.json");
    match spec_check_mlx_bundle(present, entries, weight_map) {
        Ok(missing) => {
            let required = absent(required_bundle_files(), present);
            let tokenizer = if is_present(present, "tokenizer.json"@) || is_present(present, "tokenizer.model"@)
                || is_present(present, "vocab.json"@) {
                Seq::<Seq<char>>::empty()
            } else {
                seq!["tokenizer.json|tokenizer.model|vocab.json"@]
            };
            let weights = if exists|i: int| 0 <= i < entries.len() && is_weight_shard_entry(entries[i]) {
                Seq::<Seq<char>>::empty()
            } else {
                seq!["model-*.safetensors"@]
            };
            let shards = listed_shards(present, weight_map);
            let shard_part = if shards.len() == 0 && !(present.contains("model.safetensors.index.json"@)
                && weight_map is Some) {
                Seq::<Seq<char>>::empty()
            } else {
                absent(dedup_first(shards), present)
            };
            assert(missing == required + tokenizer + shard_part + weights) by {
                if present.contains("model.safetensors.index.json"@) {
                    match weight_map {
                        Some(WeightMap::Object(vals)) => {},
                        _ => {
                            assert(required + tokenizer + weights =~= required + tokenizer + Seq::<
                                Seq<char>,
                            >::empty() + weights);
                        },
                    }
                } else {
                    assert(required + tokenizer + weights =~= required + tokenizer + Seq::<Seq<char>>::empty()
                        + weights);
                }
            }
            assert forall|x: Seq<char>| #[trigger] missing.contains(x) <==> bundle_lacks(present, entries, weight_map, x) by {
                lemma_absent_contains(required_bundle_files(), present, x);
                lemma_absent_contains(dedup_first(shards), present, x);
                lemma_dedup_contains(shards, x);
                let a = required + tokenizer;
                let b = a + shard_part;
                assert(missing.contains(x) <==> b.contains(x) || weights.contains(x)) by {
                    if missing.contains(x) {
                        let k = choose|k: int| 0 <= k < missing.len() && missing[k] == x;
                        if k >= b.len() {
                            assert(weights[k - b.len()] == x);
                        } else {
                            assert(b[k] == x);
                        }
                    }
                    if b.contains(x) {
                        let k = choose|k: int| 0 <= k < b.len() && b[k] == x;
                        assert(missing[k] == x);
                    }
                    if weights.contains(x) {
                        let k = choose|k: int| 0 <= k < weights.len() && weights[k] == x;
                        assert(missing[k + b.len()] == x);
                    }
                }
                assert(b.contains(x) <==> a.contains(x) || shard_part.contains(x)) by {
                    if b.contains(x) {
                        let k = choose|k: int| 0 <= k < b.len() && b[k] == x;
                        if k >= a.len() {
                            assert(shard_part[k - a.len()] == x);
                        } else {
                            assert(a[k] == x);
                        }
                    }
                    if a.contains(x) {
                        let k = choose|k: int| 0 <= k < a.len() && a[k] == x;
                        assert(b[k] == x);
                    }
                    if shard_part.contains(x) {
                        let k = choose|k: int| 0 <= k < shard_part.len() && shard_part[k] == x;
                        assert(b[k + a.len()] == x);
                    }
                }
                assert(a.contains(x) <==> required.contains(x) || tokenizer.contains(x)) by {
                    if a.contains(x) {
                        let k = choose|k: int| 0 <= k < a.len() && a[k] == x;
                        if k >= required.len() {
                            assert(tokenizer[k - required.len()] == x);
                        } else {
                            assert(required[k] == x);
                        }
                    }
                    if required.contains(x) {
                        let k = choose|k: int| 0 <= k < required.len() && required[k] == x;
                        assert(a[k] == x);
                    }
                    if tokenizer.contains(x) {
                        let k = choose|k: int| 0 <= k < tokenizer.len() && tokenizer[k] == x;
                        assert(a[k + required.len()] == x);
                    }
                }
                if tokenizer.len() > 0 {
                    assert(tokenizer[0] == "tokenizer.json|tokenizer.model|vocab.json"@);
                }
                if weights.len() > 0 {
                    assert(weights[0] == "model-*.safetensors"@);
                }
                if shards.len() == 0 {
                    lemma_absent_contains(dedup_first(shards), present, x);
                }
            }
            assert(missing.len() == 0 <==> bundle_complete(present, entries, weight_map)) by {
                if missing.len() == 0 {
                    assert forall|k: int| 0 <= k < required_bundle_files().len() implies present.contains(
                        #[trigger] required_bundle_files()[k],
                    ) by {
                        let x = required_bundle_files()[k];
                        assert(required_bundle_files().contains(x));
                        assert(!missing.contains(x));
                    }
                    assert(!missing.contains("tokenizer.json|tokenizer.model|vocab.json"@));
                    assert(!missing.contains("model-*.safetensors"@));
                    assert forall|k: int| 0 <= k < shards.len() implies present.contains(#[trigger] shards[k]) by {
                        assert(shards.contains(shards[k]));
                        assert(!missing.contains(shards[k]));
                    }
                } else {
                    let x = missing[0];
                    assert(missing.contains(x));
                    assert(bundle_lacks(present, entries, weight_map, x));
                    if required_bundle_files().contains(x) && !present.contains(x) {
                        let k = choose|k: int| 0 <= k < required_bundle_files().len() && required_bundle_files()[k] == x;
                        assert(!present.contains(required_bundle_files()[k]));
                    }
                    if shards.contains(x) && !present.contains(x) {
                        let k = choose|k: int| 0 <= k < shards.len() && shards[k] == x;
                        assert(!present.contains(shards[k]));
                    }
                }
            }
        },
        Err(_) => {},
    }
}

/// The directory models are kept in: the configured one, else
/// `<home>/opt/models`, else `~/opt/models` when there is no home.
pub open spec fn spec_model_dir_setting(configured: Option<Seq<char>>, home: Option<Seq<char>>) -> Seq<char> {
    match configured {
        Some(c) => c,
        None => match home {
            Some(h) => h + "/opt/models"@,
            None => "~/opt/models"@,
        },
    }
}

/// The directory models are kept in, before `~` is expanded.
pub fn model_dir_setting(configured: Option<&str>, home: Option<&str>) -> (r: String)
    ensures
        r@ == spec_model_dir_setting(
            match configured {
                Some(c) => Some(c@),
                None => None,
            },
            match home {
                Some(h) => Some(h@),
                None => None,
            },
        ),
{
    match configured {
        Some(c) => String::from_str(c),
        None => match home {
            Some(h) => {
                let mut s = String::from_str(h);
                s.append("/opt/models");
                s
            },
            None => String::from_str("~/opt/models"),
        },
    }
}

/// `base` joined with a relative path.
pub fn join(base: &str, rel: &str) -> (r: String)
    ensures
        r@ == crate::workspace::join_path(base@, rel@),
{
    let mut s = String::from_str(base);
    if !(chars_of(base).len() == 0 || ends_with(&chars_of(base), &chars_of("/"))) {
        s.append("/");
    }
    proof {
        reveal_strlit("/");
        if base@.len() > 0 {
            assert(has_suffix(base@, "/"@) == (base@.last() == '/')) by {
                assert("/"@ =~= seq!['/']);
                if base@.last() == '/' {
                    assert(base@.skip(base@.len() - 1) =~= seq!['/']);
                }
                if has_suffix(base@, "/"@) {
                    assert(base@.skip(base@.len() - 1)[0] == base@.last());
                }
            }
        }
    }
    s.append(rel);
    s
}

/// The value of the `Authorization` header for a Hugging Face token.
pub fn bearer(token: &str) -> (r: String)
    ensures
        r@ == "Bearer "@ + token@,
{
    let mut s = String::from_str("Bearer ");
    s.append(token);
    s
}

/// The URL of a repository's recursive file listing at a revision.
pub fn tree_api_url(repo: &str, revision: &str) -> (r: String)
    ensures
        r@ == "https://huggingface.co/api/models/"@ + repo@ + "/tree/"@ + revision@ + "?recursive=1"@,
{
    let mut s = String::from_str("https://huggingface.co/api/models/");
    s.append(repo);
    s.append("/tree/");
    s.append(revision);
    s.append("?recursive=1");
    s
}

/// The weight map of an MLX index.
pub fn weight_map_of(index: &crate::json::JsonValue) -> (r: Option<WeightMap>)
    ensures
        match r {
            None => crate::json::jget(index@, "weight_map"@) is None,
            Some(WeightMap::NotObject) => crate::json::jget(index@, "weight_map"@) matches Some(v)
                && !(v is Object),
            Some(WeightMap::Object(vals)) => crate::json::jget(index@, "weight_map"@) matches Some(
                crate::json::JsonView::Object(ms),
            ) && vals@.len() == ms.len() && forall|i: int|
                0 <= i < ms.len() ==> match #[trigger] vals@[i] {
                    Some(s) => crate::json::jstr(ms[i].1) == Some(s@),
                    None => crate::json::jstr(ms[i].1) is None,
                },
        },
{
    match index.get("weight_map") {
        None => None,
        Some(crate::json::JsonValue::Object(es)) => {
            proof {
                crate::json::lemma_members_view(es@, es@.len() as int);
            }
            let mut vals: Vec<Option<String>> = Vec::new();
            let mut i: usize = 0;
            while i < es.len()
                invariant
                    i <= es.len(),
                    vals@.len() == i,
                    crate::json::members_view(es@, es@.len() as int).len() == es.len(),
                    forall|j: int|
                        0 <= j < es.len() ==> #[trigger] crate::json::members_view(es@, es@.len() as int)[j] == (
                            es@[j].0@,
                            es@[j].1@,
                        ),
                    forall|j: int|
                        0 <= j < i ==> match #[trigger] vals@[j] {
                            Some(s) => crate::json::jstr(es@[j].1@) == Some(s@),
                            None => crate::json::jstr(es@[j].1@) is None,
                        },
                decreases es.len() - i,
            {
                let v = match es[i].1.as_str() {
                    Some(t) => Some(String::from_str(t)),
                    None => None,
                };
                vals.push(v);
                i += 1;
            }
            Some(WeightMap::Object(vals))
        },
        Some(_) => Some(WeightMap::NotObject),
    }
}

/// The JSON report of a single downloaded file.
pub fn single_download_json(path: &str, bytes: Option<u64>) -> (r: crate::json::JsonValue)
    ensures
        r@ == crate::json::JsonView::Object(
            seq![
                ("status"@, crate::json::JsonView::Str("done"@)),
                ("path"@, crate::json::JsonView::Str(path@)),
                ("bytes"@, match bytes {
                    Some(b) => crate::json::JsonView::Number(crate::number::decimal(b as nat)),
                    None => crate::json::JsonView::Null,
                }),
            ],
        ),
{
    let mut f: Vec<(String, crate::json::JsonValue)> = Vec::new();
    f.push((String::from_str("status"), crate::json::JsonValue::Str(String::from_str("done"))));
    f.push((String::from_str("path"), crate::json::JsonValue::Str(String::from_str(path))));
    let b = match bytes {
        Some(n) => crate::json::JsonValue::Number(crate::number::u64_to_string(n)),
        None => crate::json::JsonValue::Null,
    };
    f.push((String::from_str("bytes"), b));
    proof {
        crate::json::lemma_members_view(f@, 3);
        assert(crate::json::members_view(f@, 3) =~= seq![
            ("status"@, crate::json::JsonView::Str("done"@)),
            ("path"@, crate::json::JsonView::Str(path@)),
            ("bytes"@, match bytes {
                Some(b) => crate::json::JsonView::Number(crate::number::decimal(b as nat)),
                None => crate::json::JsonView::Null,
            }),
        ]);
    }
    crate::json::JsonValue::Object(f)
}

/// The JSON report of a downloaded bundle: the repository, the revision,
/// the files downloaded and their number.
pub fn bundle_download_json(repo: &str, revision: &str, downloaded: &Vec<String>) -> (r: crate::json::JsonValue)
    ensures
        r@ == crate::json::JsonView::Object(
            seq![
                ("status"@, crate::json::JsonView::Str("done"@)),
                ("repo"@, crate::json::JsonView::Str(repo@)),
                ("revision"@, crate::json::JsonView::Str(revision@)),
                (
                    "downloaded"@,
                    crate::json::JsonView::Array(
                        Seq::new(downloaded@.len(), |i: int| crate::json::JsonView::Str(downloaded@[i]@)),
                    ),
                ),
                ("count"@, crate::json::JsonView::Number(crate::number::decimal(downloaded@.len() as nat))),
            ],
        ),
{
    let mut items: Vec<crate::json::JsonValue> = Vec::new();
    let mut i: usize = 0;
    while i < downloaded.len()
        invariant
            i <= downloaded.len(),
            items@.len() == i,
            forall|j: int| 0 <= j < i ==> (#[trigger] items@[j])@ == crate::json::JsonView::Str(downloaded@[j]@),
        decreases downloaded.len() - i,
    {
        items.push(crate::json::JsonValue::Str(downloaded[i].clone()));
        i += 1;
    }
    proof {
        crate::json::lemma_items_view(items@, items@.len() as int);
        assert(crate::json::items_view(items@, items@.len() as int) =~= Seq::new(
            downloaded@.len(),
            |i: int| crate::json::JsonView::Str(downloaded@[i]@),
        ));
    }
    let mut f: Vec<(String, crate::json::JsonValue)> = Vec::new();
    f.push((String::from_str("status"), crate::json::JsonValue::Str(String::from_str("done"))));
    f.push((String::from_str("repo"), crate::json::JsonValue::Str(String::from_str(repo))));
    f.push((String::from_str("revision"), crate::json::JsonValue::Str(String::from_str(revision))));
    f.push((String::from_str("downloaded"), crate::json::JsonValue::Array(items)));
    f.push((
        String::from_str("count"),
        crate::json::JsonValue::Number(crate::number::u64_to_string(downloaded.len() as u64)),
    ));
    proof {
        crate::json::lemma_members_view(f@, 5);
        assert(crate::json::members_view(f@, 5) =~= seq![
            ("status"@, crate::json::JsonView::Str("done"@)),
            ("repo"@, crate::json::JsonView::Str(repo@)),
            ("revision"@, crate::json::JsonView::Str(revision@)),
            (
                "downloaded"@,
                crate::json::JsonView::Array(
                    Seq::new(downloaded@.len(), |i: int| crate::json::JsonView::Str(downloaded@[i]@)),
                ),
            ),
            ("count"@, crate::json::JsonView::Number(crate::number::decimal(downloaded@.len() as nat))),
        ]);
    }
    crate::json::JsonValue::Object(f)
}

} // verus!
