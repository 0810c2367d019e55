//! Route path text: joining a scope prefix with a path, and reading the
//! parameter segments of a path in either of the two template syntaxes.
use vstd::prelude::*;
use crate::strings::{owned, slice_chars, joined};

verus! {

/// `s` without its trailing `c` characters.
pub open spec fn trim_end_char(s: Seq<char>, c: char) -> Seq<char>
    decreases s.len(),
{
    if s.len() > 0 && s.last() == c {
        trim_end_char(s.drop_last(), c)
    } else {
        s
    }
}

/// `s` without its leading `c` characters.
pub open spec fn trim_start_char(s: Seq<char>, c: char) -> Seq<char>
    decreases s.len(),
{
    if s.len() > 0 && s[0] == c {
        trim_start_char(s.drop_first(), c)
    } else {
        s
    }
}

/// `s` without its trailing `/` characters.
pub open spec fn trim_end_slash(s: Seq<char>) -> Seq<char> {
    trim_end_char(s, '/')
}

/// `s` without its leading `/` characters.
pub open spec fn trim_start_slash(s: Seq<char>) -> Seq<char> {
    trim_start_char(s, '/')
}

/// The path that a route declared with `path` gets under the scope `prefix`.
pub open spec fn combine_spec(prefix: Seq<char>, path: Seq<char>) -> Seq<char> {
    if prefix.len() == 0 {
        path
    } else {
        let p = trim_end_slash(prefix);
        let q = trim_start_slash(path);
        if q.len() == 0 {
            p
        } else {
            p + seq!['/'] + q
        }
    }
}

proof fn lemma_trim_end_prefix(s: Seq<char>, c: char, k: int)
    requires
        0 <= k <= s.len(),
        forall|j: int| k <= j < s.len() ==> s[j] == c,
    ensures
        trim_end_char(s, c) == trim_end_char(s.subrange(0, k), c),
    decreases s.len() - k,
{
    if k < s.len() {
        assert(s.drop_last() == s.subrange(0, s.len() - 1));
        assert(s.subrange(0, s.len() - 1).subrange(0, k) == s.subrange(0, k));
        lemma_trim_end_prefix(s.drop_last(), c, k);
    } else {
        assert(s.subrange(0, k) == s);
    }
}

proof fn lemma_trim_start_suffix(s: Seq<char>, c: char, k: int)
    requires
        0 <= k <= s.len(),
        forall|j: int| 0 <= j < k ==> s[j] == c,
    ensures
        trim_start_char(s, c) == trim_start_char(s.subrange(k, s.len() as int), c),
    decreases k,
{
    if k > 0 {
        assert(s.drop_first() == s.subrange(1, s.len() as int));
        assert(s.subrange(1, s.len() as int).subrange(k - 1, s.len() - 1) == s.subrange(k, s.len() as int));
        lemma_trim_start_suffix(s.drop_first(), c, k - 1);
    } else {
        assert(s.subrange(0, s.len() as int) == s);
    }
}

/// Index one past the last character of `s[..end]` that is not `c`, at least `from`.
fn trimmed_end(s: &str, c: char, from: usize, end: usize) -> (k: usize)
    requires
        from <= end <= s@.len(),
    ensures
        from <= k <= end,
        s@.subrange(from as int, k as int) == trim_end_char(s@.subrange(from as int, end as int), c),
{
    let mut k = end;
    while k > from && s.get_char(k - 1) == c
        invariant
            from <= k <= end <= s@.len(),
            forall|j: int| k <= j < end ==> s@[j] == c,
        decreases k,
    {
        k = k - 1;
    }
    proof {
        let t = s@.subrange(from as int, end as int);
        assert forall|j: int| k - from <= j < t.len() implies t[j] == c by {
            assert(t[j] == s@[j + from]);
        }
        lemma_trim_end_prefix(t, c, k - from);
        assert(t.subrange(0, k - from) == s@.subrange(from as int, k as int));
        if k > from {
            assert(s@.subrange(from as int, k as int).last() == s@[k - 1]);
        }
        if k > 0 {
            assert(s@.subrange(0, k as int).last() == s@[k - 1]);
        }
    }
    k
}

/// Index of the first character of `s[start..end]` that is not `c`, at most `end`.
fn trimmed_start(s: &str, c: char, start: usize, end: usize) -> (k: usize)
    requires
        start <= end <= s@.len(),
    ensures
        start <= k <= end,
        s@.subrange(k as int, end as int) == trim_start_char(s@.subrange(start as int, end as int), c),
{
    let mut k: usize = start;
    while k < end && s.get_char(k) == c
        invariant
            start <= k <= end <= s@.len(),
            forall|j: int| start <= j < k ==> s@[j] == c,
        decreases end - k,
    {
        k = k + 1;
    }
    proof {
        let t = s@.subrange(start as int, end as int);
        assert forall|j: int| 0 <= j < k - start implies t[j] == c by {
            assert(t[j] == s@[j + start]);
        }
        lemma_trim_start_suffix(t, c, k - start);
        assert(t.subrange(k - start, t.len() as int) == s@.subrange(k as int, end as int));
        if k < end {
            assert(s@.subrange(k as int, end as int)[0] == s@[k as int]);
        }
        assert(trim_start_char(s@.subrange(k as int, end as int), c) == s@.subrange(k as int, end as int));
    }
    k
}

/// Joins a scope prefix and a path with exactly one `/` between them.
pub fn combine_paths(prefix: &str, path: &str) -> (r: String)
    ensures
        r@ == combine_spec(prefix@, path@),
{
    if prefix.unicode_len() == 0 {
        return owned(path);
    }
    let plen = path.unicode_len();
    let pe = trimmed_end(prefix, '/', 0, prefix.unicode_len());
    let qs = trimmed_start(path, '/', 0, plen);
    proof {
        assert(prefix@.subrange(0, prefix@.len() as int) == prefix@);
        assert(path@.subrange(0, plen as int) == path@);
    }
    let p = slice_chars(prefix, 0, pe);
    if qs == plen {
        return p;
    }
    let q = slice_chars(path, qs, plen);
    let ps = joined(p.as_str(), "/");
    proof {
        reveal_strlit("/");
    }
    joined(ps.as_str(), q.as_str())
}

/// The path of a route whose own path is the last of `segs`, declared inside
/// scopes whose paths are the others, outermost first, under `prefix`.
pub open spec fn nest_paths(prefix: Seq<char>, segs: Seq<Seq<char>>) -> Seq<char>
    decreases segs.len(),
{
    if segs.len() == 0 {
        prefix
    } else {
        nest_paths(combine_spec(prefix, segs[0]), segs.drop_first())
    }
}

/// The segments written one after the other.
pub open spec fn concat_all(segs: Seq<Seq<char>>) -> Seq<char>
    decreases segs.len(),
{
    if segs.len() == 0 {
        Seq::empty()
    } else {
        segs[0] + concat_all(segs.drop_first())
    }
}

/// A path segment as it is usually written: one leading `/`, then at least
/// one character, the first and last of them not `/`.
pub open spec fn is_plain_segment(s: Seq<char>) -> bool {
    &&& s.len() >= 2
    &&& s[0] == '/'
    &&& s[1] != '/'
    &&& s.last() != '/'
}

proof fn lemma_nest_from(acc: Seq<char>, segs: Seq<Seq<char>>)
    requires
        acc.len() == 0 || acc.last() != '/',
        forall|i: int| 0 <= i < segs.len() ==> is_plain_segment(#[trigger] segs[i]),
    ensures
        nest_paths(acc, segs) == acc + concat_all(segs),
    decreases segs.len(),
{
    if segs.len() == 0 {
        assert(acc + Seq::<char>::empty() == acc);
    } else {
        let s0 = segs[0];
        assert(is_plain_segment(s0));
        let rest = segs.drop_first();
        assert forall|i: int| 0 <= i < rest.len() implies is_plain_segment(#[trigger] rest[i]) by {
            assert(rest[i] == segs[i + 1]);
        }
        assert(trim_start_slash(s0.drop_first()) == s0.drop_first());
        assert(trim_start_slash(s0) == s0.drop_first());
        if acc.len() > 0 {
            assert(trim_end_slash(acc) == acc);
            assert(acc + seq!['/'] + s0.drop_first() == acc + s0);
        } else {
            assert(acc + s0 == s0);
        }
        let next = acc + s0;
        assert(combine_spec(acc, s0) == next);
        assert(next.last() == s0.last());
        lemma_nest_from(next, rest);
        assert(next + concat_all(rest) == acc + (s0 + concat_all(rest)));
    }
}

/// Nested scopes compose by plain concatenation: a route declared with path
/// `segs.last()` inside scopes `segs[0]`, `segs[1]`, ... (outermost first) gets
/// the left-to-right concatenation of all of them, so exactly one `/` stands
/// between two consecutive segments.
pub proof fn lemma_nested_scopes_concatenate(segs: Seq<Seq<char>>)
    requires
        forall|i: int| 0 <= i < segs.len() ==> is_plain_segment(#[trigger] segs[i]),
    ensures
        nest_paths(Seq::empty(), segs) == concat_all(segs),
{
    lemma_nest_from(Seq::empty(), segs);
    assert(Seq::<char>::empty() + concat_all(segs) == concat_all(segs));
}

/// Whatever the slashes around the two parts, a non-empty prefix and a path
/// that is not only slashes are joined by exactly one `/`: the character before
/// it and the character after it are not `/`.
pub proof fn lemma_single_separator(prefix: Seq<char>, path: Seq<char>)
    requires
        trim_end_slash(prefix).len() > 0,
        trim_start_slash(path).len() > 0,
    ensures
        ({
            let r = combine_spec(prefix, path);
            let k = trim_end_slash(prefix).len() as int;
            &&& r[k] == '/'
            &&& r[k - 1] != '/'
            &&& r[k + 1] != '/'
            &&& r.subrange(0, k) == trim_end_slash(prefix)
            &&& r.subrange(k + 1, r.len() as int) == trim_start_slash(path)
        }),
{
    lemma_trim_end_last(prefix);
    lemma_trim_start_first(path);
    let p = trim_end_slash(prefix);
    let q = trim_start_slash(path);
    let r = p + seq!['/'] + q;
    assert(r.subrange(0, p.len() as int) == p);
    assert(r.subrange(p.len() as int + 1, r.len() as int) == q);
}

proof fn lemma_trim_end_last(s: Seq<char>)
    ensures
        trim_end_slash(s).len() > 0 ==> trim_end_slash(s).last() != '/',
    decreases s.len(),
{
    if s.len() > 0 && s.last() == '/' {
        lemma_trim_end_last(s.drop_last());
    }
}

proof fn lemma_trim_start_first(s: Seq<char>)
    ensures
        trim_start_slash(s).len() > 0 ==> trim_start_slash(s)[0] != '/',
    decreases s.len(),
{
    if s.len() > 0 && s[0] == '/' {
        lemma_trim_start_first(s.drop_first());
    }
}


/// How a path template marks a parameter segment.
pub enum PathSyntax {
    /// `/users/:id`.
    Colon,
    /// `/users/{id}`.
    Brace,
}

/// `s` cut at its `/` characters: the segments before the last `/`, and the
/// segment after it.
pub open spec fn split_acc(s: Seq<char>) -> (Seq<Seq<char>>, Seq<char>)
    decreases s.len(),
{
    if s.len() == 0 {
        (Seq::empty(), Seq::empty())
    } else {
        let (done, cur) = split_acc(s.drop_last());
        if s.last() == '/' {
            (done.push(cur), Seq::empty())
        } else {
            (done, cur.push(s.last()))
        }
    }
}

/// The segments of `s` between its `/` characters (`"/a/b"` gives `""`, `"a"`, `"b"`).
pub open spec fn split_slash(s: Seq<char>) -> Seq<Seq<char>> {
    split_acc(s).0.push(split_acc(s).1)
}

/// The parameter name that a segment declares, if it is a parameter segment.
pub open spec fn segment_param(syntax: PathSyntax, seg: Seq<char>) -> Option<Seq<char>> {
    match syntax {
        PathSyntax::Colon => if seg.len() > 0 && seg[0] == ':' {
            Some(trim_start_char(seg, ':'))
        } else {
            None
        },
        PathSyntax::Brace => if seg.len() > 0 && seg[0] == '{' && seg.last() == '}' {
            Some(trim_end_char(trim_start_char(seg, '{'), '}'))
        } else {
            None
        },
    }
}

/// The parameter names declared by `segs`, in order.
pub open spec fn params_in(syntax: PathSyntax, segs: Seq<Seq<char>>) -> Seq<Seq<char>>
    decreases segs.len(),
{
    if segs.len() == 0 {
        Seq::empty()
    } else {
        let rest = params_in(syntax, segs.drop_last());
        match segment_param(syntax, segs.last()) {
            Some(n) => rest.push(n),
            None => rest,
        }
    }
}

/// The parameter names that the path template `path` declares, in order.
pub open spec fn path_param_names(syntax: PathSyntax, path: Seq<char>) -> Seq<Seq<char>> {
    params_in(syntax, split_slash(path))
}

pub open spec fn string_views(v: Seq<String>) -> Seq<Seq<char>> {
    v.map_values(|x: String| x@)
}

proof fn lemma_string_views_push(v: Seq<String>, x: String)
    ensures
        string_views(v.push(x)) == string_views(v).push(x@),
{
    assert(string_views(v.push(x)) =~= string_views(v).push(x@));
}

proof fn lemma_split_step(s: Seq<char>, i: int)
    requires
        0 <= i < s.len(),
    ensures
        split_acc(s.subrange(0, i + 1)) == (if s[i] == '/' {
            (split_acc(s.subrange(0, i)).0.push(split_acc(s.subrange(0, i)).1), Seq::<char>::empty())
        } else {
            (split_acc(s.subrange(0, i)).0, split_acc(s.subrange(0, i)).1.push(s[i]))
        }),
{
    let t = s.subrange(0, i + 1);
    assert(t.drop_last() == s.subrange(0, i));
    assert(t.last() == s[i]);
}

/// The parameter name declared by the segment `s[start..end]`, if any.
fn segment_param_at(syntax: &PathSyntax, s: &str, start: usize, end: usize) -> (r: Option<String>)
    requires
        start <= end <= s@.len(),
    ensures
        match r {
            Some(n) => segment_param(*syntax, s@.subrange(start as int, end as int)) == Some(n@),
            None => segment_param(*syntax, s@.subrange(start as int, end as int)) is None,
        },
{
    let ghost seg = s@.subrange(start as int, end as int);
    if start == end {
        return None;
    }
    proof {
        assert(seg[0] == s@[start as int]);
        assert(seg.last() == s@[end - 1]);
    }
    match syntax {
        PathSyntax::Colon => {
            if s.get_char(start) != ':' {
                return None;
            }
            let k = trimmed_start(s, ':', start, end);
            Some(slice_chars(s, k, end))
        },
        PathSyntax::Brace => {
            if s.get_char(start) != '{' || s.get_char(end - 1) != '}' {
                return None;
            }
            let k = trimmed_start(s, '{', start, end);
            let e = trimmed_end(s, '}', k, end);
            Some(slice_chars(s, k, e))
        },
    }
}

/// The names of the parameter segments of a path template, in order.
pub fn path_param_names_of(syntax: &PathSyntax, path: &str) -> (r: Vec<String>)
    ensures
        string_views(r@) == path_param_names(*syntax, path@),
{
    let n = path.unicode_len();
    let mut out: Vec<String> = Vec::new();
    let mut start: usize = 0;
    let mut i: usize = 0;
    proof {
        assert(string_views(out@) =~= Seq::<Seq<char>>::empty());
        assert(path@.subrange(0, 0) =~= Seq::<char>::empty());
        assert(path@.subrange(0, 0) =~= Seq::<char>::empty());
    }
    while i < n
        invariant
            n == path@.len(),
            start <= i <= n,
            split_acc(path@.subrange(0, i as int)).1 == path@.subrange(start as int, i as int),
            string_views(out@) == params_in(*syntax, split_acc(path@.subrange(0, i as int)).0),
        decreases n - i,
    {
        proof {
            lemma_split_step(path@, i as int);
        }
        if path.get_char(i) == '/' {
            let p = segment_param_at(syntax, path, start, i);
            let ghost d = split_acc(path@.subrange(0, i as int)).0.push(path@.subrange(start as int, i as int));
            proof {
                assert(d.drop_last() == split_acc(path@.subrange(0, i as int)).0);
            }
            match p {
                Some(x) => {
                    proof {
                        lemma_string_views_push(out@, x);
                    }
                    out.push(x);
                },
                None => {},
            }
            start = i + 1;
        } else {
            proof {
                assert(path@.subrange(start as int, i + 1) == path@.subrange(start as int, i as int).push(path@[i as int]));
            }
        }
        i = i + 1;
    }
    let last = segment_param_at(syntax, path, start, n);
    proof {
        assert(path@.subrange(0, n as int) == path@);
        let d = split_slash(path@);
        assert(d.drop_last() == split_acc(path@).0);
    }
    match last {
        Some(x) => {
            proof {
                lemma_string_views_push(out@, x);
            }
            out.push(x);
        },
        None => {},
    }
    out
}

/// A segment as the document writes it: `:name` becomes `{name}`.
pub open spec fn document_segment(seg: Seq<char>) -> Seq<char> {
    if seg.len() > 0 && seg[0] == ':' {
        seq!['{'] + seg.drop_first() + seq!['}']
    } else {
        seg
    }
}

/// The segments `done` in document form, each followed by `/`.
pub open spec fn document_prefix(done: Seq<Seq<char>>) -> Seq<char>
    decreases done.len(),
{
    if done.len() == 0 {
        Seq::empty()
    } else {
        document_prefix(done.drop_last()) + document_segment(done.last()) + seq!['/']
    }
}

/// A path template with every `:name` segment written `{name}`, the segments
/// joined by `/` as before.
pub open spec fn document_path(path: Seq<char>) -> Seq<char> {
    document_prefix(split_acc(path).0) + document_segment(split_acc(path).1)
}

fn document_segment_at(s: &str, start: usize, end: usize) -> (r: String)
    requires
        start <= end <= s@.len(),
    ensures
        r@ == document_segment(s@.subrange(start as int, end as int)),
{
    let ghost seg = s@.subrange(start as int, end as int);
    if start < end && s.get_char(start) == ':' {
        proof {
            assert(seg[0] == s@[start as int]);
            assert(seg.drop_first() == s@.subrange(start + 1, end as int));
            reveal_strlit("{");
            reveal_strlit("}");
        }
        let inner = slice_chars(s, start + 1, end);
        let a = joined("{", inner.as_str());
        joined(a.as_str(), "}")
    } else {
        proof {
            if start < end {
                assert(seg[0] == s@[start as int]);
            }
        }
        slice_chars(s, start, end)
    }
}

/// Writes a path template in the document's `{name}` parameter syntax.
pub fn convert_path_format(path: &str) -> (r: String)
    ensures
        r@ == document_path(path@),
{
    let n = path.unicode_len();
    let mut out = String::new();
    let mut start: usize = 0;
    let mut i: usize = 0;
    proof {
        assert(path@.subrange(0, 0) =~= Seq::<char>::empty());
    }
    while i < n
        invariant
            n == path@.len(),
            start <= i <= n,
            split_acc(path@.subrange(0, i as int)).1 == path@.subrange(start as int, i as int),
            out@ == document_prefix(split_acc(path@.subrange(0, i as int)).0),
        decreases n - i,
    {
        proof {
            lemma_split_step(path@, i as int);
        }
        if path.get_char(i) == '/' {
            let seg = document_segment_at(path, start, i);
            let ghost d = split_acc(path@.subrange(0, i as int)).0.push(path@.subrange(start as int, i as int));
            proof {
                assert(d.drop_last() == split_acc(path@.subrange(0, i as int)).0);
                reveal_strlit("/");
            }
            let a = joined(out.as_str(), seg.as_str());
            out = joined(a.as_str(), "/");
            start = i + 1;
        } else {
            proof {
                assert(path@.subrange(start as int, i + 1) == path@.subrange(start as int, i as int).push(path@[i as int]));
            }
        }
        i = i + 1;
    }
    let last = document_segment_at(path, start, n);
    proof {
        assert(path@.subrange(0, n as int) == path@);
    }
    joined(out.as_str(), last.as_str())
}

} // verus!
