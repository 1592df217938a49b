//! From a request path to the file that answers it.
//!
//! Paths are `/`-separated strings. Trailing `/`s aside, a path's file name
//! is the text after its last `/`; its extension is the text after the file name's last `.`, when
//! that `.` is not the file name's first character. Resolution needs two
//! answers from the filesystem, which the caller supplies: whether the
//! candidate path is a directory, and, for a candidate without an extension,
//! whether its `.md` sibling exists. No normalisation is done: a request
//! holding `..` segments may name a file outside the base directory, and the
//! caller decides whether to serve it.
use vstd::prelude::*;

use crate::error::RequestError;

verus! {

/// Where a request ends up.
pub enum Disposition {
    /// Render this Markdown file.
    Markdown(String),
    /// Not Markdown: hand this path to the static-file server.
    NotMarkdown(String),
    /// Nothing here to serve.
    NotFound,
}

pub enum DispositionView {
    Markdown(Seq<char>),
    NotMarkdown(Seq<char>),
    NotFound,
}

impl View for Disposition {
    type V = DispositionView;

    open spec fn view(&self) -> DispositionView {
        match self {
            Disposition::Markdown(p) => DispositionView::Markdown(p@),
            Disposition::NotMarkdown(p) => DispositionView::NotMarkdown(p@),
            Disposition::NotFound => DispositionView::NotFound,
        }
    }
}

/// A resolution step: either decided, or waiting on whether a Markdown file
/// exists at the given path.
pub enum Resolution {
    Decided(Disposition),
    CheckMarkdown(String),
}

pub enum ResolutionView {
    Decided(DispositionView),
    CheckMarkdown(Seq<char>),
}

impl View for Resolution {
    type V = ResolutionView;

    open spec fn view(&self) -> ResolutionView {
        match self {
            Resolution::Decided(d) => ResolutionView::Decided(d@),
            Resolution::CheckMarkdown(p) => ResolutionView::CheckMarkdown(p@),
        }
    }
}

/// The index of the last `c` in `s`, or -1 when there is none.
pub open spec fn last_index(s: Seq<char>, c: char) -> int
    decreases s.len(),
{
    if s.len() == 0 {
        -1
    } else if s.last() == c {
        s.len() - 1
    } else {
        last_index(s.drop_last(), c)
    }
}

/// The request path relative to the base directory: without its leading
/// `/`, and `index.md` where nothing is left.
pub open spec fn relative_request(req: Seq<char>) -> Seq<char> {
    let rest = if req.len() > 0 && req[0] == '/' {
        req.drop_first()
    } else {
        req
    };
    if rest.len() == 0 {
        "index.md"@
    } else {
        rest
    }
}

/// `rel` joined onto `base`: an absolute `rel` replaces `base`; otherwise a
/// `/` goes between them unless `base` is empty or already ends in one.
pub open spec fn join(base: Seq<char>, rel: Seq<char>) -> Seq<char> {
    if rel.len() > 0 && rel[0] == '/' {
        rel
    } else if base.len() == 0 || base.last() == '/' {
        base + rel
    } else {
        base + seq!['/'] + rel
    }
}

/// `p` without the `/`s it ends in.
pub open spec fn trim_slashes(p: Seq<char>) -> Seq<char>
    decreases p.len(),
{
    if p.len() > 0 && p.last() == '/' {
        trim_slashes(p.drop_last())
    } else {
        p
    }
}

pub open spec fn file_name(p: Seq<char>) -> Seq<char> {
    p.subrange(last_index(p, '/') + 1, p.len() as int)
}

pub open spec fn extension(p: Seq<char>) -> Option<Seq<char>> {
    let f = file_name(trim_slashes(p));
    let d = last_index(f, '.');
    if d <= 0 {
        None
    } else {
        Some(f.subrange(d + 1, f.len() as int))
    }
}

/// The path a request names before the filesystem is asked anything.
pub open spec fn candidate(base: Seq<char>, req: Seq<char>) -> Seq<char> {
    join(base, relative_request(req))
}

/// The step after learning whether the candidate is a directory: a
/// directory stands for its `index.md`; then the extension decides.
pub open spec fn classified(cand: Seq<char>, is_dir: bool) -> ResolutionView {
    let p = if is_dir {
        join(cand, "index.md"@)
    } else {
        cand
    };
    match extension(p) {
        Some(e) => if e == "md"@ {
            ResolutionView::Decided(DispositionView::Markdown(p))
        } else {
            ResolutionView::Decided(DispositionView::NotMarkdown(p))
        },
        None => ResolutionView::CheckMarkdown(trim_slashes(p) + ".md"@),
    }
}

fn last_index_of(s: &str, c: char) -> (r: Option<usize>)
    ensures
        match r {
            Some(i) => i as int == last_index(s@, c) && i < s@.len(),
            None => last_index(s@, c) == -1,
        },
{
    let n = s.unicode_len();
    let mut i: usize = n;
    assert(s@.subrange(0, n as int) =~= s@);
    while i > 0
        invariant
            i <= n,
            n == s@.len(),
            last_index(s@, c) == last_index(s@.subrange(0, i as int), c),
        decreases i,
    {
        let ch = s.get_char(i - 1);
        assert(s@.subrange(0, i as int).drop_last() =~= s@.subrange(0, i - 1));
        if ch == c {
            return Some(i - 1);
        }
        i = i - 1;
    }
    None
}

fn trimmed_len(p: &str) -> (r: usize)
    ensures
        r <= p@.len(),
        p@.subrange(0, r as int) == trim_slashes(p@),
{
    let n = p.unicode_len();
    let mut i: usize = n;
    assert(p@.subrange(0, n as int) =~= p@);
    while i > 0 && p.get_char(i - 1) == '/'
        invariant
            i <= n,
            n == p@.len(),
            trim_slashes(p@) == trim_slashes(p@.subrange(0, i as int)),
        decreases i,
    {
        assert(p@.subrange(0, i as int).drop_last() =~= p@.subrange(0, i - 1));
        i = i - 1;
    }
    i
}

fn relative_request_of(request: &str) -> (r: String)
    ensures
        r@ == relative_request(request@),
{
    let n = request.unicode_len();
    let rest = if n > 0 && request.get_char(0) == '/' {
        request.substring_char(1, n)
    } else {
        request
    };
    assert(n > 0 && request@[0] == '/' ==> request@.drop_first() =~= request@.subrange(1, n as int));
    if rest.unicode_len() == 0 {
        String::from_str("index.md")
    } else {
        String::from_str(rest)
    }
}

fn join_paths(base: &str, rel: &str) -> (r: String)
    ensures
        r@ == join(base@, rel@),
{
    let bn = base.unicode_len();
    if rel.unicode_len() > 0 && rel.get_char(0) == '/' {
        String::from_str(rel)
    } else if bn == 0 || base.get_char(bn - 1) == '/' {
        String::from_str(base).concat(rel)
    } else {
        proof {
            reveal_strlit("/");
        }
        String::from_str(base).concat("/").concat(rel)
    }
}

fn extension_of(p: &str) -> (r: Option<String>)
    ensures
        match r {
            Some(e) => extension(p@) == Some(e@),
            None => extension(p@) is None,
        },
{
    let n = trimmed_len(p);
    let t = p.substring_char(0, n);
    let start: usize = match last_index_of(t, '/') {
        Some(i) => i + 1,
        None => 0,
    };
    let name = t.substring_char(start, n);
    assert(name@ == file_name(trim_slashes(p@)));
    match last_index_of(name, '.') {
        Some(d) => {
            if d == 0 {
                None
            } else {
                let m = name.unicode_len();
                Some(String::from_str(name.substring_char(d + 1, m)))
            }
        },
        None => None,
    }
}

/// The path that `request` names under `base`.
pub fn candidate_path(base: &str, request: &str) -> (r: String)
    ensures
        r@ == candidate(base@, request@),
{
    let rel = relative_request_of(request);
    join_paths(base, rel.as_str())
}

/// Decides a candidate path once the caller knows whether it is a directory.
pub fn classify(cand: &str, is_dir: bool) -> (r: Resolution)
    ensures
        r@ == classified(cand@, is_dir),
{
    let p = if is_dir {
        join_paths(cand, "index.md")
    } else {
        String::from_str(cand)
    };
    match extension_of(p.as_str()) {
        Some(e) => {
            let md = String::from_str("md");
            if e.eq(&md) {
                Resolution::Decided(Disposition::Markdown(p))
            } else {
                Resolution::Decided(Disposition::NotMarkdown(p))
            }
        },
        None => {
            let n = trimmed_len(p.as_str());
            let t = String::from_str(p.as_str().substring_char(0, n));
            Resolution::CheckMarkdown(t.concat(".md"))
        },
    }
}

/// Ends a resolution that waited on a Markdown file: it is rendered where it
/// exists, and the request finds nothing otherwise.
pub fn settle(probe: String, exists: bool) -> (r: Disposition)
    ensures
        exists ==> r@ == DispositionView::Markdown(probe@),
        !exists ==> r@ == DispositionView::NotFound,
{
    if exists {
        Disposition::Markdown(probe)
    } else {
        Disposition::NotFound
    }
}

/// The file to render for a resolved request, or the rejection it ends in.
pub fn render_target(d: Disposition) -> (r: Result<String, RequestError>)
    ensures
        match d@ {
            DispositionView::Markdown(p) => r matches Ok(s) && s@ == p,
            DispositionView::NotMarkdown(_) => r == Err::<String, RequestError>(RequestError::NotMarkdown),
            DispositionView::NotFound => r == Err::<String, RequestError>(RequestError::NotFound),
        },
{
    match d {
        Disposition::Markdown(p) => Ok(p),
        Disposition::NotMarkdown(_) => Err(RequestError::NotMarkdown),
        Disposition::NotFound => Err(RequestError::NotFound),
    }
}

} // verus!
