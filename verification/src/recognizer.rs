//! Route recognition: translating route patterns such as `/name/{val}` into
//! anchored regular expressions, matching request paths against them, and
//! carrying the matched parameters.
//!
//! The translation and the parameter bookkeeping are verified; the regular
//! expression engine itself is the `regex` crate behind trusted wrappers.

use vstd::prelude::*;
use vstd::slice::slice_subrange;
use vstd::string::{StrSliceExecFns, StringSliceAdditionalSpecFns};

use crate::error::UriSegmentError;
use crate::wire::{ascii_bytes, lit_bytes};

verus! {

// ------------------------------------------------------------------
// Pattern translation
// ------------------------------------------------------------------
/// The state of the pattern translator: the regular expression built so
/// far, whether the scan is inside a `{...}` segment (and past its `:`),
/// the parameter name and custom pattern collected so far, the names seen,
/// and whether a tail segment was closed (after which nothing may follow).
pub ghost struct TranslateSt {
    pub re: Seq<u8>,
    pub in_param: bool,
    pub in_pattern: bool,
    pub name: Seq<u8>,
    pub pat: Seq<u8>,
    pub names: Seq<Seq<u8>>,
    pub hard_stop: bool,
}

pub open spec fn translate_init() -> TranslateSt {
    TranslateSt {
        re: ascii_bytes("^/"@),
        in_param: false,
        in_pattern: false,
        name: Seq::empty(),
        pat: ascii_bytes("[^/]+"@),
        names: Seq::empty(),
        hard_stop: false,
    }
}

/// The regular-expression fragment of one completed parameter segment.
pub open spec fn param_fragment(name: Seq<u8>, pat: Seq<u8>, tail: bool) -> Seq<u8> {
    if tail {
        ascii_bytes("(?P<"@) + name + ascii_bytes(">[%/[:word:][:punct:][:space:]]+)"@)
    } else {
        ascii_bytes("(?P<"@) + name + ascii_bytes(">"@) + pat + ascii_bytes(")"@)
    }
}

/// One step of the translation; `None` marks the input the translator does
/// not accept (a byte after a closed tail segment).
pub open spec fn translate_step(st: TranslateSt, ch: u8, first: bool) -> Option<TranslateSt> {
    if first && ch == 47 {  // a leading slash is implied
        Some(st)
    } else if st.hard_stop {
        Option::<TranslateSt>::None
    } else if st.in_param {
        if ch == 125 {  // }
            let tail = st.pat == ascii_bytes("*"@);
            Some(
                TranslateSt {
                    re: st.re + param_fragment(st.name, st.pat, tail),
                    in_param: false,
                    in_pattern: false,
                    name: Seq::empty(),
                    pat: ascii_bytes("[^/]+"@),
                    names: st.names.push(st.name),
                    hard_stop: tail,
                    ..st
                },
            )
        } else if ch == 58 && !st.in_pattern {  // :
            Some(TranslateSt { in_pattern: true, pat: Seq::empty(), ..st })
        } else if st.in_pattern {
            if ch == 32 && st.pat.len() == 0 {  // leading space of a pattern
                Some(st)
            } else {
                Some(TranslateSt { pat: st.pat.push(ch), ..st })
            }
        } else {
            Some(TranslateSt { name: st.name.push(ch), ..st })
        }
    } else if ch == 123 {  // {
        Some(TranslateSt { in_param: true, ..st })
    } else {
        Some(TranslateSt { re: st.re.push(ch), ..st })
    }
}

pub open spec fn translate_fold(s: Seq<u8>, i: int, st: TranslateSt) -> Option<TranslateSt>
    decreases s.len() - i,
{
    if i < 0 || i >= s.len() {
        Some(st)
    } else {
        match translate_step(st, s[i], i == 0) {
            None => Option::<TranslateSt>::None,
            Some(st2) => translate_fold(s, i + 1, st2),
        }
    }
}

/// The anchored regular expression a route pattern translates to, and the
/// parameter names it binds, in order. `None` is the one rejected shape: a
/// tail segment (`{name:*}`) that is not the last section of the pattern.
pub open spec fn translate_spec(s: Seq<u8>) -> Option<(Seq<u8>, Seq<Seq<u8>>)> {
    match translate_fold(s, 0, translate_init()) {
        None => Option::<(Seq<u8>, Seq<Seq<u8>>)>::None,
        Some(st) => Some((st.re.push(36), st.names)),  // trailing $
    }
}

/// Translate a route pattern into an anchored regular expression; mirrors
/// `translate_spec`. Returns the expression and the parameter names bound,
/// in order.
pub fn parse(pattern: &[u8]) -> (r: Option<(Vec<u8>, Vec<Vec<u8>>)>)
    ensures
        match r {
            Some(t) => translate_spec(pattern@) == Some((t.0@, t.1@.map_values(|n: Vec<u8>| n@))),
            None => translate_spec(pattern@) is None,
        },
{
    proof {
        reveal_strlit("^/");
        reveal_strlit("[^/]+");
        reveal_strlit("*");
        reveal_strlit("(?P<");
        reveal_strlit(">");
        reveal_strlit(")");
        reveal_strlit(">[%/[:word:][:punct:][:space:]]+)");
    }
    let mut re: Vec<u8> = lit_bytes("^/");
    let default_pat: Vec<u8> = lit_bytes("[^/]+");
    let star: Vec<u8> = lit_bytes("*");
    let opener: Vec<u8> = lit_bytes("(?P<");
    let gt: Vec<u8> = lit_bytes(">");
    let closer: Vec<u8> = lit_bytes(")");
    let tail_closer: Vec<u8> = lit_bytes(">[%/[:word:][:punct:][:space:]]+)");
    let mut in_param = false;
    let mut in_pattern = false;
    let mut name: Vec<u8> = Vec::new();
    let mut pat: Vec<u8> = default_pat.clone();
    let mut names: Vec<Vec<u8>> = Vec::new();
    let mut hard_stop = false;
    let n = pattern.len();
    let mut i: usize = 0;
    let ghost s = pattern@;
    proof {
        assert(names@.map_values(|v: Vec<u8>| v@) =~= Seq::<Seq<u8>>::empty());
        assert(name@ =~= Seq::<u8>::empty());
        assert(cur_state(re@, in_param, in_pattern, name@, pat@, names@, hard_stop)
            == translate_init());
    }
    while i < n
        invariant
            0 <= i <= n,
            n == s.len(),
            s == pattern@,
            default_pat@ == ascii_bytes("[^/]+"@),
            star@ == ascii_bytes("*"@),
            opener@ == ascii_bytes("(?P<"@),
            gt@ == ascii_bytes(">"@),
            closer@ == ascii_bytes(")"@),
            tail_closer@ == ascii_bytes(">[%/[:word:][:punct:][:space:]]+)"@),
            translate_fold(s, 0, translate_init()) == translate_fold(
                s,
                i as int,
                cur_state(re@, in_param, in_pattern, name@, pat@, names@, hard_stop),
            ),
        decreases n - i,
    {
        let ghost st = cur_state(re@, in_param, in_pattern, name@, pat@, names@, hard_stop);
        let ch = *vstd::slice::slice_index_get(pattern, i);
        if i == 0 && ch == 47 {
            i = i + 1;
            continue;
        }
        if hard_stop {
            // A byte after a closed tail segment: the pattern is rejected.
            proof {
                lemma_fold_none(s, i as int, st);
            }
            return Option::<(Vec<u8>, Vec<Vec<u8>>)>::None;
        }
        if in_param {
            if ch == 125 {
                let tail = crate::codec::eq_bytes(pat.as_slice(), star.as_slice());
                re.append(&mut opener.clone());
                re.append(&mut name.clone());
                if tail {
                    re.append(&mut tail_closer.clone());
                } else {
                    re.append(&mut gt.clone());
                    re.append(&mut pat.clone());
                    re.append(&mut closer.clone());
                }
                proof {
                    assert(re@ =~= st.re + param_fragment(st.name, st.pat, tail));
                }
                let ghost names_pre = names@.map_values(|v: Vec<u8>| v@);
                names.push(name);
                proof {
                    assert(names@.map_values(|v: Vec<u8>| v@) =~= names_pre.push(st.name));
                }
                name = Vec::new();
                pat = default_pat.clone();
                in_param = false;
                in_pattern = false;
                hard_stop = tail;
                proof {
                    assert(name@ =~= Seq::<u8>::empty());
                }
            } else if ch == 58 && !in_pattern {
                in_pattern = true;
                pat = Vec::new();
                proof {
                    assert(pat@ =~= Seq::<u8>::empty());
                }
            } else if in_pattern {
                if !(ch == 32 && pat.len() == 0) {
                    pat.push(ch);
                }
            } else {
                name.push(ch);
            }
        } else if ch == 123 {
            in_param = true;
        } else {
            re.push(ch);
        }
        proof {
            assert(translate_step(st, s[i as int], i == 0) == Some(
                cur_state(re@, in_param, in_pattern, name@, pat@, names@, hard_stop),
            ));
        }
        i = i + 1;
    }
    re.push(36);
    Some((re, names))
}

/// The translator state the executable translator's variables stand for.
pub open spec fn cur_state(
    re: Seq<u8>,
    in_param: bool,
    in_pattern: bool,
    name: Seq<u8>,
    pat: Seq<u8>,
    names: Seq<Vec<u8>>,
    hard_stop: bool,
) -> TranslateSt {
    TranslateSt {
        re,
        in_param,
        in_pattern,
        name,
        pat,
        names: names.map_values(|v: Vec<u8>| v@),
        hard_stop,
    }
}

/// A rejecting step rejects the whole fold.
pub proof fn lemma_fold_none(s: Seq<u8>, i: int, st: TranslateSt)
    requires
        0 <= i < s.len(),
        translate_step(st, s[i], i == 0) is None,
    ensures
        translate_fold(s, i, st) is None,
{
}

} // verus!

verus! {

// ------------------------------------------------------------------
// Matched parameters
// ------------------------------------------------------------------
/// The mathematical content of a parameter set.
pub ghost struct ParamsView {
    pub text: Seq<u8>,
    pub matches: Seq<Option<(usize, usize)>>,
    pub names: Seq<(Seq<u8>, usize)>,
}

/// Route match information: when a route pattern binds parameters, their
/// matched ranges of the path are kept here.
pub struct Params {
    text: Vec<u8>,
    matches: Vec<Option<(usize, usize)>>,
    names: Vec<(Vec<u8>, usize)>,
}

impl View for Params {
    type V = ParamsView;

    closed spec fn view(&self) -> ParamsView {
        ParamsView {
            text: self.text@,
            matches: self.matches@,
            names: self.names@.map_values(|nv: (Vec<u8>, usize)| (nv.0@, nv.1)),
        }
    }
}

/// The value of the capture group after `index`, when it exists and lies
/// within the text.
pub open spec fn by_idx_spec(v: ParamsView, index: int) -> Option<Seq<u8>> {
    if 0 <= index && index + 1 < v.matches.len() {
        match v.matches[index + 1] {
            Some(range) => if range.0 <= range.1 <= v.text.len() {
                Some(v.text.subrange(range.0 as int, range.1 as int))
            } else {
                Option::<Seq<u8>>::None
            },
            None => Option::<Seq<u8>>::None,
        }
    } else {
        Option::<Seq<u8>>::None
    }
}

/// Index of the first name equal to `key`, at or after `from`.
pub open spec fn find_name(v: ParamsView, key: Seq<u8>, from: int) -> Option<int>
    decreases v.names.len() - from,
{
    if from < 0 || from >= v.names.len() {
        Option::<int>::None
    } else if v.names[from].0 == key {
        Some(from)
    } else {
        find_name(v, key, from + 1)
    }
}

/// The value of the parameter named `key`: its group index, looked up by
/// name, then the group's range.
pub open spec fn get_spec(v: ParamsView, key: Seq<u8>) -> Option<Seq<u8>> {
    match find_name(v, key, 0) {
        Some(i) => {
            let group = v.names[i].1;
            if group >= 1 {
                by_idx_spec(v, group - 1)
            } else {
                Option::<Seq<u8>>::None
            }
        },
        None => Option::<Seq<u8>>::None,
    }
}

impl Params {
    /// A parameter set with no bindings at all.
    pub fn empty() -> (r: Params)
        ensures
            r@.text == Seq::<u8>::empty(),
            r@.matches == Seq::<Option<(usize, usize)>>::empty(),
            r@.names == Seq::<(Seq<u8>, usize)>::empty(),
    {
        let r = Params { text: Vec::new(), matches: Vec::new(), names: Vec::new() };
        proof {
            assert(r@.names =~= Seq::<(Seq<u8>, usize)>::empty());
        }
        r
    }

    /// A parameter set over `text`, with the groups' matched ranges and the
    /// names bound to group indices.
    pub fn new(text: Vec<u8>, matches: Vec<Option<(usize, usize)>>, names: Vec<(Vec<u8>, usize)>)
        -> (r: Params)
        ensures
            r@.text == text@,
            r@.matches == matches@,
            r@.names == names@.map_values(|nv: (Vec<u8>, usize)| (nv.0@, nv.1)),
    {
        Params { text, matches, names }
    }

    /// Whether no patterns were matched.
    pub fn is_empty(&self) -> (r: bool)
        ensures
            r == (self@.names.len() == 0),
    {
        self.names.len() == 0
    }

    /// The matched text of the capture group after `index`.
    pub fn by_idx(&self, index: usize) -> (r: Option<&[u8]>)
        ensures
            match r {
                Some(v) => by_idx_spec(self@, index as int) == Some(v@),
                None => by_idx_spec(self@, index as int) is None,
            },
    {
        let mlen = self.matches.len();
        if index >= mlen || index + 1 >= mlen {
            return Option::<&[u8]>::None;
        }
        match self.matches[index + 1] {
            Some(range) => {
                if range.0 <= range.1 && range.1 <= self.text.len() {
                    Some(slice_subrange(self.text.as_slice(), range.0, range.1))
                } else {
                    Option::<&[u8]>::None
                }
            },
            None => Option::<&[u8]>::None,
        }
    }

    /// The matched text of the parameter named `key`.
    pub fn get(&self, key: &str) -> (r: Option<&[u8]>)
        ensures
            match r {
                Some(v) => get_spec(self@, key.spec_bytes()) == Some(v@),
                None => get_spec(self@, key.spec_bytes()) is None,
            },
    {
        let kb = key.as_bytes();
        let n = self.names.len();
        let mut i: usize = 0;
        loop
            invariant
                0 <= i <= n,
                n == self@.names.len(),
                kb@ == key.spec_bytes(),
                find_name(self@, kb@, 0) == find_name(self@, kb@, i as int),
            decreases n - i,
        {
            if i >= n {
                assert(find_name(self@, kb@, i as int) is None);
                return Option::<&[u8]>::None;
            }
            assert(self@.names[i as int] == (self.names@[i as int].0@, self.names@[i as int].1));
            if crate::codec::eq_bytes(self.names[i].0.as_slice(), kb) {
                assert(find_name(self@, kb@, i as int) == Some(i as int));
                let group = self.names[i].1;
                if group >= 1 {
                    return self.by_idx(group - 1);
                }
                return Option::<&[u8]>::None;
            }
            assert(find_name(self@, kb@, i as int) == find_name(self@, kb@, i as int + 1));
            i = i + 1;
        }
    }
}

// ------------------------------------------------------------------
// Path segments
// ------------------------------------------------------------------
/// Commit one `/`-separated segment: `..` drops the previous segment, an
/// empty segment is skipped, segments with forbidden first or last
/// characters are rejected, anything else is appended.
pub open spec fn seg_commit(acc: Seq<Seq<u8>>, seg: Seq<u8>) -> Result<
    Seq<Seq<u8>>,
    UriSegmentError,
> {
    if seg.len() == 2 && seg[0] == 46 && seg[1] == 46 {
        if acc.len() > 0 {
            Ok(acc.drop_last())
        } else {
            Ok(acc)
        }
    } else if seg.len() == 0 {
        Ok(acc)
    } else if seg[0] == 46 {
        Err(UriSegmentError::BadStart('.'))
    } else if seg[0] == 42 {
        Err(UriSegmentError::BadStart('*'))
    } else if seg.last() == 58 {
        Err(UriSegmentError::BadEnd(':'))
    } else if seg.last() == 62 {
        Err(UriSegmentError::BadEnd('>'))
    } else if seg.last() == 60 {
        Err(UriSegmentError::BadEnd('<'))
    } else {
        Ok(acc.push(seg))
    }
}

pub open spec fn path_fold(s: Seq<u8>, i: int, acc: Seq<Seq<u8>>, cur: Seq<u8>) -> Result<
    Seq<Seq<u8>>,
    UriSegmentError,
>
    decreases s.len() - i,
{
    if i < 0 || i >= s.len() {
        seg_commit(acc, cur)
    } else if s[i] == 47 {
        match seg_commit(acc, cur) {
            Err(e) => Err(e),
            Ok(acc2) => path_fold(s, i + 1, acc2, Seq::empty()),
        }
    } else {
        path_fold(s, i + 1, acc, cur.push(s[i]))
    }
}

/// The safe path segments of a path parameter: percent-decoding is the
/// caller's business; this walks the `/`-separated segments, resolves `..`,
/// and rejects the shapes that could escape or confuse a filesystem path.
pub open spec fn from_param_spec(s: Seq<u8>) -> Result<Seq<Seq<u8>>, UriSegmentError> {
    path_fold(s, 0, Seq::empty(), Seq::empty())
}

/// Commit one segment; mirrors `seg_commit`.
fn commit_segment(acc: &mut Vec<Vec<u8>>, seg: Vec<u8>) -> (r: Result<(), UriSegmentError>)
    ensures
        ({
            let acc_v = old(acc)@.map_values(|v: Vec<u8>| v@);
            match seg_commit(acc_v, seg@) {
                Ok(acc2) => r is Ok && final(acc)@.map_values(|v: Vec<u8>| v@) == acc2,
                Err(e) => r == Err::<(), UriSegmentError>(e) && final(acc)@ == old(acc)@,
            }
        }),
{
    let ghost acc_v = acc@.map_values(|v: Vec<u8>| v@);
    let n = seg.len();
    if n == 2 && seg[0] == 46 && seg[1] == 46 {
        if acc.len() > 0 {
            let ghost pre = acc@;
            let _ = acc.pop();
            proof {
                assert(acc@ =~= pre.drop_last());
                assert(acc@.map_values(|v: Vec<u8>| v@) =~= acc_v.drop_last());
            }
        }
        return Ok(());
    }
    if n == 0 {
        return Ok(());
    }
    if seg[0] == 46 {
        return Err(UriSegmentError::BadStart('.'));
    }
    if seg[0] == 42 {
        return Err(UriSegmentError::BadStart('*'));
    }
    let last = seg[n - 1];
    if last == 58 {
        return Err(UriSegmentError::BadEnd(':'));
    }
    if last == 62 {
        return Err(UriSegmentError::BadEnd('>'));
    }
    if last == 60 {
        return Err(UriSegmentError::BadEnd('<'));
    }
    let ghost segv = seg@;
    acc.push(seg);
    proof {
        assert(acc@.map_values(|v: Vec<u8>| v@) =~= acc_v.push(segv));
    }
    Ok(())
}

/// Split a path parameter into safe segments; mirrors `from_param_spec`.
pub fn from_param(val: &[u8]) -> (r: Result<Vec<Vec<u8>>, UriSegmentError>)
    ensures
        match r {
            Ok(segs) => from_param_spec(val@) == Ok::<_, UriSegmentError>(
                segs@.map_values(|v: Vec<u8>| v@),
            ),
            Err(e) => from_param_spec(val@) == Err::<Seq<Seq<u8>>, _>(e),
        },
{
    let mut acc: Vec<Vec<u8>> = Vec::new();
    let mut cur: Vec<u8> = Vec::new();
    let n = val.len();
    let mut i: usize = 0;
    let ghost s = val@;
    proof {
        assert(acc@.map_values(|v: Vec<u8>| v@) =~= Seq::<Seq<u8>>::empty());
        assert(cur@ =~= Seq::<u8>::empty());
    }
    while i < n
        invariant
            0 <= i <= n,
            n == s.len(),
            s == val@,
            from_param_spec(s) == path_fold(
                s,
                i as int,
                acc@.map_values(|v: Vec<u8>| v@),
                cur@,
            ),
        decreases n - i,
    {
        let ch = *vstd::slice::slice_index_get(val, i);
        if ch == 47 {
            let seg = cur;
            cur = Vec::new();
            let res = commit_segment(&mut acc, seg);
            match res {
                Err(e) => {
                    return Err(e);
                },
                Ok(()) => {},
            }
            proof {
                assert(cur@ =~= Seq::<u8>::empty());
            }
        } else {
            cur.push(ch);
        }
        i = i + 1;
    }
    let res = commit_segment(&mut acc, cur);
    match res {
        Err(e) => Err(e),
        Ok(()) => Ok(acc),
    }
}

} // verus!

verus! {

// ------------------------------------------------------------------
// The regular-expression engine, behind trusted wrappers
// ------------------------------------------------------------------
#[verifier::external_type_specification]
#[verifier::external_body]
pub struct ExRegex(regex::Regex);

/// Whether these bytes are valid UTF-8 and compile as a regular expression.
pub uninterp spec fn regex_compiles(pat: Seq<u8>) -> bool;

/// The pattern a compiled regular expression was built from: the content of
/// an otherwise opaque `regex::Regex` value.
pub uninterp spec fn regex_pattern(re: regex::Regex) -> Seq<u8>;

/// The capture groups of the leftmost match of the pattern in the text, as
/// byte ranges of the text, one entry per group, group zero first; `None`
/// when the pattern does not match (or the text is not UTF-8). A function
/// of the pattern and the text alone.
pub uninterp spec fn regex_captures_spec(pat: Seq<u8>, text: Seq<u8>) -> Option<
    Seq<Option<(usize, usize)>>,
>;

/// Relies on `str::from_utf8` and `regex::Regex::new`: compiling a pattern
/// from the same bytes succeeds or fails deterministically, and the compiled
/// expression carries that pattern.
#[verifier::external_body]
fn regex_new(pattern: &[u8]) -> (r: Option<regex::Regex>)
    ensures
        r is Some <==> regex_compiles(pattern@),
        r matches Some(re) ==> regex_pattern(re) == pattern@,
{
    match core::str::from_utf8(pattern) {
        Ok(s) => regex::Regex::new(s).ok(),
        Err(_) => None,
    }
}

/// Relies on `regex::Regex::captures`: the leftmost match and its groups'
/// byte offsets are determined by the pattern and the text alone.
#[verifier::external_body]
fn regex_captures_pos(re: &regex::Regex, text: &[u8]) -> (r: Option<Vec<Option<(usize, usize)>>>)
    ensures
        match regex_captures_spec(regex_pattern(*re), text@) {
            Some(m) => r matches Some(v) && v@ == m,
            None => r is None,
        },
{
    let s = match core::str::from_utf8(text) {
        Ok(s) => s,
        Err(_) => return None,
    };
    re.captures(s).map(|caps| {
        let mut v = Vec::with_capacity(caps.len());
        for i in 0..caps.len() {
            v.push(caps.get(i).map(|m| (m.start(), m.end())));
        }
        v
    })
}

/// One compiled route pattern and the parameter names it binds, each with
/// its capture-group index.
pub struct Pattern {
    re: regex::Regex,
    names: Vec<(Vec<u8>, usize)>,
}

impl Pattern {
    /// The regular expression this pattern matches.
    pub closed spec fn pat_spec(&self) -> Seq<u8> {
        regex_pattern(self.re)
    }

    /// The bound names with their group indices.
    pub closed spec fn names_spec(&self) -> Seq<(Seq<u8>, usize)> {
        self.names@.map_values(|nv: (Vec<u8>, usize)| (nv.0@, nv.1))
    }

    /// Compile a translated route pattern; the `k`-th bound name belongs to
    /// capture group `k + 1`.
    pub fn new(pattern: &[u8], names: Vec<Vec<u8>>) -> (r: Option<Pattern>)
        requires
            names@.len() < usize::MAX,
        ensures
            r is Some <==> regex_compiles(pattern@),
            r matches Some(p) ==> p.pat_spec() == pattern@ && p.names_spec().len() == names@.len()
                && (forall|i: int|
                0 <= i < names@.len() ==> (#[trigger] p.names_spec()[i]) == (
                    names@[i]@,
                    (i + 1) as usize,
                )),
    {
        let re = match regex_new(pattern) {
            Some(re) => re,
            None => {
                return Option::<Pattern>::None;
            },
        };
        let ghost full = names@;
        let n = names.len();
        let mut rest = names;
        let mut indexed: Vec<(Vec<u8>, usize)> = Vec::new();
        let mut k: usize = 0;
        while k < n
            invariant
                0 <= k <= n,
                n == full.len() < usize::MAX,
                rest@ == full.skip(k as int),
                indexed@.len() == k,
                forall|i: int|
                    0 <= i < k ==> (#[trigger] indexed@[i]).0@ == full[i]@ && indexed@[i].1 == i
                        + 1,
            decreases n - k,
        {
            let ghost rest_pre = rest@;
            let nm = rest.remove(0);
            proof {
                assert(rest@ =~= rest_pre.skip(1));
                assert(rest@ =~= full.skip(k as int + 1));
                assert(nm == full[k as int]);
            }
            indexed.push((nm, k + 1));
            k = k + 1;
        }
        let p = Pattern { re, names: indexed };
        proof {
            assert forall|i: int| 0 <= i < full.len() implies (#[trigger] p.names_spec()[i]) == (
                full[i]@,
                (i + 1) as usize,
            ) by {
                assert(p.names_spec()[i] == (p.names@[i].0@, p.names@[i].1));
            }
        }
        Some(p)
    }

    /// Match a path against this pattern, carrying the bound parameters out.
    pub fn match_info(&self, text: &[u8]) -> (r: Option<Params>)
        ensures
            match regex_captures_spec(self.pat_spec(), text@) {
                Some(m) => r matches Some(params) && params@ == (ParamsView {
                    text: text@,
                    matches: m,
                    names: self.names_spec(),
                }),
                None => r is None,
            },
    {
        let caps = match regex_captures_pos(&self.re, text) {
            Some(c) => c,
            None => {
                return Option::<Params>::None;
            },
        };
        let mut names: Vec<(Vec<u8>, usize)> = Vec::new();
        let n = self.names.len();
        let mut i: usize = 0;
        while i < n
            invariant
                0 <= i <= n,
                n == self.names@.len(),
                names@.len() == i,
                forall|j: int|
                    0 <= j < i ==> (#[trigger] names@[j]).0@ == self.names@[j].0@ && names@[j].1
                        == self.names@[j].1,
            decreases n - i,
        {
            names.push((self.names[i].0.clone(), self.names[i].1));
            i = i + 1;
        }
        let params = Params::new(crate::wire::copy_range(text, 0, text.len()), caps, names);
        proof {
            assert(text@.subrange(0, text@.len() as int) =~= text@);
            assert(names@.map_values(|nv: (Vec<u8>, usize)| (nv.0@, nv.1)) =~= self.names_spec());
        }
        Some(params)
    }
}

} // verus!

verus! {

impl<T> Default for RouteRecognizer<T> {
    /// An empty recognizer.
    fn default() -> (r: RouteRecognizer<T>)
        ensures
            r.pats_spec() == Seq::<Seq<u8>>::empty(),
            r.prefix_spec() == 0,
    {
        RouteRecognizer::empty()
    }
}

/// Index of the first pattern that matches the text, at or after `from`.
pub open spec fn first_route(pats: Seq<Seq<u8>>, text: Seq<u8>, from: int) -> Option<int>
    decreases pats.len() - from,
{
    if from < 0 || from >= pats.len() {
        Option::<int>::None
    } else if regex_captures_spec(pats[from], text) is Some {
        Some(from)
    } else {
        first_route(pats, text, from + 1)
    }
}

/// The `i`-th input is acceptable: its pattern translates, the bound names
/// fit, and the translated expression compiles.
pub open spec fn input_ok<T>(inputs: Seq<(Vec<u8>, T)>, i: int) -> bool {
    &&& translate_spec(inputs[i].0@) is Some
    &&& (translate_spec(inputs[i].0@)->0).1.len() < usize::MAX
    &&& regex_compiles((translate_spec(inputs[i].0@)->0).0)
}

/// Every input is acceptable.
pub open spec fn all_inputs_ok<T>(inputs: Seq<(Vec<u8>, T)>) -> bool {
    forall|i: int| 0 <= i < inputs.len() ==> #[trigger] input_ok(inputs, i)
}

/// The `i`-th route was built from the `i`-th input: its pattern translated
/// and compiled, its handler carried over.
pub open spec fn route_ok<T>(
    inputs: Seq<(Vec<u8>, T)>,
    built: Seq<(Pattern, T)>,
    i: int,
) -> bool {
    &&& translate_spec(inputs[i].0@) is Some
    &&& built[i].0.pat_spec() == (translate_spec(inputs[i].0@)->0).0
    &&& built[i].1 == inputs[i].1
}

/// The first `k` routes were built from the first `k` inputs.
pub open spec fn routes_built<T>(
    inputs: Seq<(Vec<u8>, T)>,
    built: Seq<(Pattern, T)>,
    k: int,
) -> bool {
    forall|i: int| 0 <= i < k ==> #[trigger] route_ok(inputs, built, i)
}

/// Pushing a correctly built route keeps `routes_built`.
proof fn lemma_routes_built_step<T>(
    inputs: Seq<(Vec<u8>, T)>,
    pre: Seq<(Pattern, T)>,
    post: Seq<(Pattern, T)>,
    k: int,
    p: Pattern,
    h: T,
)
    requires
        routes_built(inputs, pre, k),
        0 <= k < inputs.len(),
        pre.len() == k,
        post == pre.push((p, h)),
        translate_spec(inputs[k].0@) is Some,
        p.pat_spec() == (translate_spec(inputs[k].0@)->0).0,
        h == inputs[k].1,
    ensures
        routes_built(inputs, post, k + 1),
{
    assert forall|i: int| 0 <= i < k + 1 implies #[trigger] route_ok(inputs, post, i) by {
        if i < k {
            assert(route_ok(inputs, pre, i));
            assert(post[i] == pre[i]);
        } else {
            assert(post[i] == (p, h));
        }
    }
}

/// A set of routes: compiled patterns, each with its handler, matched in
/// order after a fixed prefix is stripped from the path.
pub struct RouteRecognizer<T> {
    prefix: usize,
    routes: Vec<(Pattern, T)>,
}

impl<T> RouteRecognizer<T> {
    /// The patterns of the routes, in order.
    pub closed spec fn pats_spec(&self) -> Seq<Seq<u8>> {
        self.routes@.map_values(|rt: (Pattern, T)| rt.0.pat_spec())
    }

    /// The handlers of the routes, in order.
    pub closed spec fn handlers_spec(&self) -> Seq<T> {
        self.routes@.map_values(|rt: (Pattern, T)| rt.1)
    }

    /// The routes themselves.
    pub closed spec fn routes_spec(&self) -> Seq<(Pattern, T)> {
        self.routes@
    }

    /// The names bound by each route.
    pub closed spec fn names_of(&self, i: int) -> Seq<(Seq<u8>, usize)> {
        self.routes@[i].0.names_spec()
    }

    /// The stripped prefix length.
    pub closed spec fn prefix_spec(&self) -> usize {
        self.prefix
    }

    /// An empty recognizer.
    pub fn empty() -> (r: RouteRecognizer<T>)
        ensures
            r.pats_spec() == Seq::<Seq<u8>>::empty(),
            r.prefix_spec() == 0,
    {
        let r = RouteRecognizer { prefix: 0, routes: Vec::new() };
        proof {
            assert(r.pats_spec() =~= Seq::<Seq<u8>>::empty());
        }
        r
    }

    /// Replace the routes. This succeeds exactly when every pattern
    /// translates, binds a representable number of names, and compiles as a
    /// regular expression; on the first one that does not, nothing changes
    /// and `false` comes back.
    pub fn set_routes(&mut self, routes: Vec<(Vec<u8>, T)>) -> (r: bool)
        ensures
            r == all_inputs_ok(routes@),
            !r ==> final(self).pats_spec() == old(self).pats_spec() && final(self).handlers_spec()
                == old(self).handlers_spec() && final(self).prefix_spec() == old(
                self,
            ).prefix_spec(),
            r ==> {
                &&& final(self).prefix_spec() == old(self).prefix_spec()
                &&& final(self).pats_spec().len() == routes@.len()
                &&& final(self).handlers_spec().len() == routes@.len()
                &&& routes_built(routes@, final(self).routes_spec(), routes@.len() as int)
            },
    {
        let ghost inputs = routes@;
        let mut rest = routes;
        let mut built: Vec<(Pattern, T)> = Vec::new();
        let n = rest.len();
        let mut k: usize = 0;
        while k < n
            invariant
                0 <= k <= n,
                n == inputs.len(),
                inputs == routes@,
                rest@ == inputs.skip(k as int),
                built@.len() == k,
                routes_built(inputs, built@, k as int),
                forall|i: int| 0 <= i < k ==> #[trigger] input_ok(inputs, i),
            decreases n - k,
        {
            let ghost rest_pre = rest@;
            let (pat_bytes, handler) = rest.remove(0);
            proof {
                assert(rest@ =~= rest_pre.skip(1));
                assert(rest@ =~= inputs.skip(k as int + 1));
                assert((pat_bytes, handler) == inputs[k as int]);
            }
            let translated = parse(pat_bytes.as_slice());
            let (re_bytes, names) = match translated {
                Some(t) => t,
                None => {
                    proof {
                        assert(!input_ok(inputs, k as int));
                        assert(!all_inputs_ok(routes@));
                    }
                    return false;
                },
            };
            if names.len() >= usize::MAX {
                proof {
                    assert((translate_spec(inputs[k as int].0@)->0).1.len() >= usize::MAX);
                    assert(!input_ok(inputs, k as int));
                    assert(!all_inputs_ok(routes@));
                }
                return false;
            }
            let compiled = match Pattern::new(re_bytes.as_slice(), names) {
                Some(p) => p,
                None => {
                    proof {
                        assert(!regex_compiles((translate_spec(inputs[k as int].0@)->0).0));
                        assert(!input_ok(inputs, k as int));
                        assert(!all_inputs_ok(routes@));
                    }
                    return false;
                },
            };
            let ghost built_pre = built@;
            let ghost gp = compiled;
            let ghost gh = handler;
            built.push((compiled, handler));
            proof {
                assert(translate_spec(inputs[k as int].0@) is Some);
                assert(gp.pat_spec() == (translate_spec(inputs[k as int].0@)->0).0);
                assert(gh == inputs[k as int].1);
                assert(built@ == built_pre.push((gp, gh)));
                lemma_routes_built_step(inputs, built_pre, built@, k as int, gp, gh);
                assert(input_ok(inputs, k as int));
            }
            k = k + 1;
        }
        self.routes = built;
        proof {
            assert(inputs == routes@);
            assert(self.pats_spec().len() == routes@.len());
            assert(self.handlers_spec().len() == routes@.len());
            assert(all_inputs_ok(routes@));
        }
        true
    }

    /// Change the stripped prefix: a trailing slash does not count.
    pub fn set_prefix(&mut self, prefix: &[u8])
        ensures
            final(self).prefix_spec() == (if prefix@.len() > 0 && prefix@.last() == 47 {
                (prefix@.len() - 1) as usize
            } else {
                prefix@.len() as usize
            }),
            final(self).pats_spec() == old(self).pats_spec(),
            final(self).handlers_spec() == old(self).handlers_spec(),
    {
        let n = prefix.len();
        if n > 0 && *vstd::slice::slice_index_get(prefix, n - 1) == 47 {
            self.prefix = n - 1;
        } else {
            self.prefix = n;
        }
    }

    /// Recognize a path: strip the prefix, select the first route whose
    /// pattern matches (an empty remainder is selected as `/`), and carry
    /// the matched parameters out with the route's handler.
    pub fn recognize(&self, path: &[u8]) -> (r: Option<(Option<Params>, &T)>)
        ensures
            self.prefix_spec() > path@.len() ==> r is None,
            self.prefix_spec() <= path@.len() ==> {
                let p = path@.skip(self.prefix_spec() as int);
                let sel = if p.len() == 0 {
                    seq![47u8]
                } else {
                    p
                };
                match first_route(self.pats_spec(), sel, 0) {
                    None => r is None,
                    Some(idx) => r matches Some((params, handler)) && *handler
                        == self.handlers_spec()[idx] && (match regex_captures_spec(
                        self.pats_spec()[idx],
                        p,
                    ) {
                        Some(m) => params matches Some(pv) && pv@ == (ParamsView {
                            text: p,
                            matches: m,
                            names: self.names_of(idx),
                        }),
                        None => params is None,
                    }),
                }
            },
    {
        if self.prefix > path.len() {
            return Option::<(Option<Params>, &T)>::None;
        }
        let p = slice_subrange(path, self.prefix, path.len());
        let mut slash: Vec<u8> = Vec::new();
        slash.push(47);
        let ghost pv = path@.skip(self.prefix as int);
        proof {
            assert(p@ == pv);
            assert(slash@ =~= seq![47u8]);
        }
        let n = self.routes.len();
        let mut i: usize = 0;
        loop
            invariant
                0 <= i <= n,
                n == self.routes@.len(),
                p@ == pv,
                slash@ == seq![47u8],
                self.prefix_spec() <= path@.len(),
                pv == path@.skip(self.prefix_spec() as int),
                first_route(self.pats_spec(), if pv.len() == 0 { seq![47u8] } else { pv }, 0)
                    == first_route(
                    self.pats_spec(),
                    if pv.len() == 0 { seq![47u8] } else { pv },
                    i as int,
                ),
            decreases n - i,
        {
            let ghost sel = if pv.len() == 0 { seq![47u8] } else { pv };
            if i >= n {
                assert(first_route(self.pats_spec(), sel, i as int) is None);
                return Option::<(Option<Params>, &T)>::None;
            }
            assert(self.pats_spec()[i as int] == self.routes@[i as int].0.pat_spec());
            let matched = if p.len() == 0 {
                regex_captures_pos(&self.routes[i].0.re, slash.as_slice())
            } else {
                regex_captures_pos(&self.routes[i].0.re, p)
            };
            match matched {
                Some(_) => {
                    assert(first_route(self.pats_spec(), sel, i as int) == Some(i as int));
                    let params = self.routes[i].0.match_info(p);
                    proof {
                        assert(self.handlers_spec()[i as int] == self.routes@[i as int].1);
                        assert(self.names_of(i as int) == self.routes@[i as int].0.names_spec());
                    }
                    return Some((params, &self.routes[i].1));
                },
                None => {
                    assert(first_route(self.pats_spec(), sel, i as int) == first_route(
                        self.pats_spec(),
                        sel,
                        i as int + 1,
                    ));
                },
            }
            i = i + 1;
        }
    }
}

} // verus!
