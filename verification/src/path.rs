//! Joining and normalising slash-separated paths.

use vstd::prelude::*;
use crate::text::{chars_of, string_of};

verus! {

/// `s` starts with a slash.
pub open spec fn is_absolute(s: Seq<char>) -> bool {
    s.len() > 0 && s[0] == '/'
}

/// `s` without the slashes at its end.
pub open spec fn trim_end(s: Seq<char>) -> Seq<char>
    decreases s.len(),
{
    if s.len() > 0 && s.last() == '/' {
        trim_end(s.drop_last())
    } else {
        s
    }
}

/// `s` without the slashes at its start.
pub open spec fn trim_start(s: Seq<char>) -> Seq<char>
    decreases s.len(),
{
    if s.len() > 0 && s[0] == '/' {
        trim_start(s.drop_first())
    } else {
        s
    }
}

/// `result` with the segment `seg` joined on: an empty segment adds
/// nothing, the first segment of an empty path is taken as it is, and any
/// other follows one slash, without slashes of its own at its start.
pub open spec fn join_one(result: Seq<char>, seg: Seq<char>) -> Seq<char> {
    if seg.len() == 0 {
        result
    } else if result.len() == 0 {
        seg
    } else {
        result.push('/') + trim_start(seg)
    }
}

/// `result` with the segments from `i` on joined on, in order.
pub open spec fn join_from(result: Seq<char>, segments: Seq<Seq<char>>, i: int) -> Seq<char>
    decreases segments.len() - i,
{
    if i < 0 || i >= segments.len() {
        result
    } else {
        join_from(join_one(result, segments[i]), segments, i + 1)
    }
}

/// The path `base` with `segments` joined on. The result is absolute where
/// `base` is.
pub open spec fn joined(base: Seq<char>, segments: Seq<Seq<char>>) -> Seq<char> {
    let r = join_from(trim_end(base), segments, 0);
    if is_absolute(base) && !is_absolute(r) {
        seq!['/'] + r
    } else {
        r
    }
}

/// The components of `s` from position `i` on, after the components in
/// `done` and the characters in `current`: the non-empty pieces between
/// slashes.
pub open spec fn split_from(s: Seq<char>, i: int, current: Seq<char>, done: Seq<Seq<char>>) -> Seq<
    Seq<char>,
>
    decreases s.len() - i,
{
    let closed = if current.len() > 0 {
        done.push(current)
    } else {
        done
    };
    if i < 0 || i >= s.len() {
        closed
    } else if s[i] == '/' {
        split_from(s, i + 1, Seq::empty(), closed)
    } else {
        split_from(s, i + 1, current.push(s[i]), done)
    }
}

/// The non-empty pieces of `s` between slashes.
pub open spec fn components(s: Seq<char>) -> Seq<Seq<char>> {
    split_from(s, 0, Seq::empty(), Seq::empty())
}

/// The component `.`.
pub open spec fn dot() -> Seq<char> {
    seq!['.']
}

/// The component `..`.
pub open spec fn dot_dot() -> Seq<char> {
    seq!['.', '.']
}

/// The stack of names after one more component: `.` changes nothing, `..`
/// drops the last name if there is one, any other name is pushed.
pub open spec fn resolve_one(stack: Seq<Seq<char>>, component: Seq<char>) -> Seq<Seq<char>> {
    if component == dot() {
        stack
    } else if component == dot_dot() {
        if stack.len() > 0 {
            stack.drop_last()
        } else {
            stack
        }
    } else {
        stack.push(component)
    }
}

/// The stack of names after the components from `i` on.
pub open spec fn resolve_from(parts: Seq<Seq<char>>, i: int, stack: Seq<Seq<char>>) -> Seq<
    Seq<char>,
>
    decreases parts.len() - i,
{
    if i < 0 || i >= parts.len() {
        stack
    } else {
        resolve_from(parts, i + 1, resolve_one(stack, parts[i]))
    }
}

/// `text` followed by the names from `i` on, with a slash before each but
/// the first of `names`.
pub open spec fn glue_from(names: Seq<Seq<char>>, i: int, text: Seq<char>) -> Seq<char>
    decreases names.len() - i,
{
    if i < 0 || i >= names.len() {
        text
    } else if i == 0 {
        glue_from(names, i + 1, text + names[i])
    } else {
        glue_from(names, i + 1, text.push('/') + names[i])
    }
}

/// The path that `canonicalize` works on: `path` itself, or `path` joined
/// on the working directory where it is relative and one is given.
pub open spec fn full_path(path: Seq<char>, current_dir: Option<Seq<char>>) -> Seq<char> {
    if is_absolute(path) {
        path
    } else {
        match current_dir {
            Some(cwd) => joined(cwd, seq![path]),
            None => path,
        }
    }
}

/// The normal form of `path`: no `.`, no `..`, no empty component and no
/// slash at the end. A `..` that would leave the top is dropped. The empty
/// path and the absolute path without a name are `/`; the relative path
/// without a name is `.`.
pub open spec fn canonical(path: Seq<char>, current_dir: Option<Seq<char>>) -> Seq<char> {
    let full = full_path(path, current_dir);
    let names = resolve_from(components(full), 0, Seq::empty());
    if full.len() == 0 {
        seq!['/']
    } else if is_absolute(full) {
        if names.len() == 0 {
            seq!['/']
        } else {
            glue_from(names, 0, seq!['/'])
        }
    } else {
        if names.len() == 0 {
            seq!['.']
        } else {
            glue_from(names, 0, Seq::empty())
        }
    }
}

/// The position of the last slash among the first `n` characters of `s`,
/// or `-1` where there is none.
pub open spec fn last_slash(s: Seq<char>, n: int) -> int
    decreases n,
{
    if n <= 0 || n > s.len() {
        -1
    } else if s[n - 1] == '/' {
        n - 1
    } else {
        last_slash(s, n - 1)
    }
}

/// The directory that holds `path`, in normal form: nothing for the root,
/// `.` for a single relative name, `/` for a name directly under the root.
pub open spec fn parent_of(path: Seq<char>) -> Option<Seq<char>> {
    let normal = canonical(path, None);
    let at = last_slash(normal, normal.len() as int);
    if normal == seq!['/'] || normal.len() == 0 {
        None
    } else if at < 0 {
        Some(seq!['.'])
    } else if at == 0 {
        Some(seq!['/'])
    } else {
        Some(normal.take(at))
    }
}

/// The last component of `path`, slashes at its end apart: nothing for the
/// empty path and for a path of slashes only.
pub open spec fn name_of(path: Seq<char>) -> Option<Seq<char>> {
    let trimmed = trim_end(path);
    if trimmed.len() == 0 {
        None
    } else {
        Some(trimmed.skip(last_slash(trimmed, trimmed.len() as int) + 1))
    }
}

/// The strings of a list as sequences of characters.
pub open spec fn texts(list: Seq<&str>) -> Seq<Seq<char>> {
    Seq::new(list.len(), |i: int| list[i]@)
}

/// The rows of a list as sequences of characters.
pub open spec fn rows(list: Seq<Vec<char>>) -> Seq<Seq<char>> {
    Seq::new(list.len(), |i: int| list[i]@)
}

/// Trimming takes a prefix: the one that ends before the last run of slashes.
proof fn lemma_trim_end(s: Seq<char>, e: int)
    requires
        0 <= e <= s.len(),
        forall|j: int| e <= j < s.len() ==> s[j] == '/',
        e > 0 ==> s[e - 1] != '/',
    ensures
        trim_end(s) == s.take(e),
    decreases s.len() - e,
{
    if e == s.len() {
        assert(s.take(e) =~= s);
    } else {
        let t = s.drop_last();
        lemma_trim_end(t, e);
        assert(t.take(e) =~= s.take(e));
    }
}

/// Trimming takes a suffix: the one that starts after the first run of slashes.
proof fn lemma_trim_start(s: Seq<char>, b: int)
    requires
        0 <= b <= s.len(),
        forall|j: int| 0 <= j < b ==> s[j] == '/',
        b < s.len() ==> s[b] != '/',
    ensures
        trim_start(s) == s.skip(b),
    decreases b,
{
    if b == 0 {
        assert(s.skip(0) =~= s);
    } else {
        let t = s.drop_first();
        lemma_trim_start(t, b - 1);
        assert(t.skip(b - 1) =~= s.skip(b));
    }
}

/// Appends `tail[from..]` to `out`.
fn append_from(out: &mut Vec<char>, tail: &Vec<char>, from: usize)
    requires
        from <= tail@.len(),
    ensures
        final(out)@ == old(out)@ + tail@.skip(from as int),
{
    let n = tail.len();
    let mut i = from;
    while i < n
        invariant
            n == tail@.len(),
            from <= i <= n,
            out@ == old(out)@ + tail@.subrange(from as int, i as int),
        decreases n - i,
    {
        out.push(tail[i]);
        i = i + 1;
        assert(out@ =~= old(out)@ + tail@.subrange(from as int, i as int));
    }
    assert(tail@.subrange(from as int, n as int) =~= tail@.skip(from as int));
}

/// The first `len` characters of `v`.
fn prefix(v: &Vec<char>, len: usize) -> (r: Vec<char>)
    requires
        len <= v@.len(),
    ensures
        r@ == v@.take(len as int),
{
    let mut out: Vec<char> = Vec::new();
    let mut i: usize = 0;
    while i < len
        invariant
            len <= v@.len(),
            i <= len,
            out@ == v@.take(i as int),
        decreases len - i,
    {
        out.push(v[i]);
        i = i + 1;
        assert(out@ =~= v@.take(i as int));
    }
    out
}

/// The length of `v` without the slashes at its end.
fn trimmed_len(v: &Vec<char>) -> (e: usize)
    ensures
        e <= v@.len(),
        trim_end(v@) == v@.take(e as int),
{
    let mut e = v.len();
    while e > 0 && v[e - 1] == '/'
        invariant
            e <= v@.len(),
            forall|j: int| e <= j < v@.len() ==> v@[j] == '/',
        decreases e,
    {
        e = e - 1;
    }
    proof {
        lemma_trim_end(v@, e as int);
    }
    e
}

/// The number of slashes at the start of `v`.
fn leading_slashes(v: &Vec<char>) -> (b: usize)
    ensures
        b <= v@.len(),
        trim_start(v@) == v@.skip(b as int),
{
    let n = v.len();
    let mut b: usize = 0;
    while b < n && v[b] == '/'
        invariant
            n == v@.len(),
            b <= n,
            forall|j: int| 0 <= j < b ==> v@[j] == '/',
        decreases n - b,
    {
        b = b + 1;
    }
    proof {
        lemma_trim_start(v@, b as int);
    }
    b
}

/// Joins `segments` on `base`, as characters.
fn join_chars(base: &Vec<char>, segments: &Vec<Vec<char>>) -> (r: Vec<char>)
    ensures
        r@ == joined(base@, rows(segments@)),
{
    let e = trimmed_len(base);
    let mut result = prefix(base, e);
    let n = segments.len();
    let mut i: usize = 0;
    while i < n
        invariant
            n == segments@.len(),
            i <= n,
            join_from(result@, rows(segments@), i as int) == join_from(
                trim_end(base@),
                rows(segments@),
                0,
            ),
        decreases n - i,
    {
        let seg = &segments[i];
        assert(rows(segments@)[i as int] == seg@);
        if seg.len() > 0 {
            if result.len() == 0 {
                append_from(&mut result, seg, 0);
                assert(seg@.skip(0) =~= seg@);
                assert(result@ =~= seg@);
            } else {
                result.push('/');
                let b = leading_slashes(seg);
                append_from(&mut result, seg, b);
            }
        }
        i = i + 1;
    }
    if base.len() > 0 && base[0] == '/' && !(result.len() > 0 && result[0] == '/') {
        let mut rooted: Vec<char> = Vec::new();
        rooted.push('/');
        append_from(&mut rooted, &result, 0);
        assert(result@.skip(0) =~= result@);
        assert(rooted@ =~= seq!['/'] + result@);
        rooted
    } else {
        result
    }
}

/// The path `base` with `segments` joined on.
///
/// Slashes at the end of `base` are dropped and empty segments are skipped.
/// Each segment follows one slash, without slashes of its own at its
/// start; the first segment of an empty path is taken as it is. The result
/// is absolute where `base` is.
pub fn join(base: &str, segments: &[&str]) -> (r: String)
    ensures
        r@ == joined(base@, texts(segments@)),
{
    let base_chars = chars_of(base);
    let mut segs: Vec<Vec<char>> = Vec::new();
    let n = segments.len();
    let mut i: usize = 0;
    while i < n
        invariant
            n == segments@.len(),
            i <= n,
            rows(segs@) == texts(segments@).take(i as int),
        decreases n - i,
    {
        let ghost before = rows(segs@);
        let seg = chars_of(segments[i]);
        assert(seg@ == texts(segments@)[i as int]);
        segs.push(seg);
        assert(rows(segs@) =~= before.push(texts(segments@)[i as int]));
        i = i + 1;
        assert(rows(segs@) =~= texts(segments@).take(i as int));
    }
    assert(rows(segs@) =~= texts(segments@));
    let out = join_chars(&base_chars, &segs);
    string_of(&out)
}

/// The non-empty pieces of `v` between slashes.
fn split_components(v: &Vec<char>) -> (r: Vec<Vec<char>>)
    ensures
        rows(r@) == components(v@),
{
    let mut done: Vec<Vec<char>> = Vec::new();
    let mut current: Vec<char> = Vec::new();
    let n = v.len();
    let mut i: usize = 0;
    assert(rows(done@) =~= Seq::<Seq<char>>::empty());
    while i < n
        invariant
            n == v@.len(),
            i <= n,
            split_from(v@, i as int, current@, rows(done@)) == components(v@),
        decreases n - i,
    {
        if v[i] == '/' {
            if current.len() > 0 {
                let ghost before = rows(done@);
                let ghost piece = current@;
                done.push(current);
                assert(rows(done@) =~= before.push(piece));
                current = Vec::new();
            }
            assert(current@ =~= Seq::<char>::empty());
        } else {
            current.push(v[i]);
        }
        i = i + 1;
    }
    if current.len() > 0 {
        let ghost before = rows(done@);
        let ghost piece = current@;
        done.push(current);
        assert(rows(done@) =~= before.push(piece));
    }
    done
}

/// Whether `v` is the component `.`.
fn is_dot(v: &Vec<char>) -> (r: bool)
    ensures
        r == (v@ == dot()),
{
    let r = v.len() == 1 && v[0] == '.';
    proof {
        if r {
            assert(v@ =~= dot());
        }
    }
    r
}

/// Whether `v` is the component `..`.
fn is_dot_dot(v: &Vec<char>) -> (r: bool)
    ensures
        r == (v@ == dot_dot()),
{
    let r = v.len() == 2 && v[0] == '.' && v[1] == '.';
    proof {
        if r {
            assert(v@ =~= dot_dot());
        }
    }
    r
}

/// The normal form of `full`, as characters.
fn normalize(full: &Vec<char>) -> (r: Vec<char>)
    ensures
        r@ == (if full@.len() == 0 {
            seq!['/']
        } else {
            let names = resolve_from(components(full@), 0, Seq::empty());
            if is_absolute(full@) {
                if names.len() == 0 {
                    seq!['/']
                } else {
                    glue_from(names, 0, seq!['/'])
                }
            } else {
                if names.len() == 0 {
                    seq!['.']
                } else {
                    glue_from(names, 0, Seq::empty())
                }
            }
        }),
{
    let mut out: Vec<char> = Vec::new();
    if full.len() == 0 {
        out.push('/');
        assert(out@ =~= seq!['/']);
        return out;
    }
    let parts = split_components(full);
    let absolute = full[0] == '/';
    let mut stack: Vec<Vec<char>> = Vec::new();
    let n = parts.len();
    let mut i: usize = 0;
    assert(rows(stack@) =~= Seq::<Seq<char>>::empty());
    while i < n
        invariant
            n == parts@.len(),
            i <= n,
            resolve_from(rows(parts@), i as int, rows(stack@)) == resolve_from(
                rows(parts@),
                0,
                Seq::empty(),
            ),
        decreases n - i,
    {
        let part = &parts[i];
        assert(rows(parts@)[i as int] == part@);
        let ghost before = rows(stack@);
        if is_dot(part) {
        } else if is_dot_dot(part) {
            if stack.len() > 0 {
                let _ = stack.pop();
                assert(rows(stack@) =~= before.drop_last());
            }
        } else {
            let mut copy: Vec<char> = Vec::new();
            append_from(&mut copy, part, 0);
            assert(part@.skip(0) =~= part@);
            assert(copy@ =~= part@);
            stack.push(copy);
            assert(rows(stack@) =~= before.push(part@));
        }
        i = i + 1;
    }
    if absolute {
        out.push('/');
        assert(out@ =~= seq!['/']);
    } else {
        assert(out@ =~= Seq::<char>::empty());
    }
    let m = stack.len();
    if m == 0 {
        if !absolute {
            out.push('.');
            assert(out@ =~= seq!['.']);
        }
        return out;
    }
    let ghost start = out@;
    let mut k: usize = 0;
    while k < m
        invariant
            m == stack@.len(),
            k <= m,
            glue_from(rows(stack@), k as int, out@) == glue_from(rows(stack@), 0, start),
        decreases m - k,
    {
        let name = &stack[k];
        assert(rows(stack@)[k as int] == name@);
        if k > 0 {
            out.push('/');
        }
        append_from(&mut out, name, 0);
        assert(name@.skip(0) =~= name@);
        k = k + 1;
    }
    out
}

/// The normal form of `path`.
///
/// A relative `path` is first joined on `current_dir`, where one is given.
/// Then `.` and empty components are dropped and each `..` takes the name
/// before it away; a `..` with no name before it is dropped. An absolute
/// path without a name, and the empty path, give `/`; a relative path
/// without a name gives `.`.
pub fn canonicalize(path: &str, current_dir: Option<&str>) -> (r: String)
    ensures
        r@ == canonical(
            path@,
            match current_dir {
                Some(cwd) => Some(cwd@),
                None => None,
            },
        ),
{
    let path_chars = chars_of(path);
    let full = if path_chars.len() > 0 && path_chars[0] == '/' {
        path_chars
    } else {
        match current_dir {
            Some(cwd) => {
                let cwd_chars = chars_of(cwd);
                let mut segs: Vec<Vec<char>> = Vec::new();
                segs.push(path_chars);
                assert(rows(segs@) =~= seq![path@]);
                join_chars(&cwd_chars, &segs)
            },
            None => path_chars,
        }
    };
    let out = normalize(&full);
    string_of(&out)
}

/// The position of the last slash in `v`, if there is one.
fn find_last_slash(v: &Vec<char>) -> (r: Option<usize>)
    ensures
        match r {
            Some(at) => at == last_slash(v@, v@.len() as int),
            None => last_slash(v@, v@.len() as int) == -1,
        },
        r is Some ==> r->Some_0 < v@.len(),
{
    let mut n = v.len();
    while n > 0
        invariant
            n <= v@.len(),
            last_slash(v@, n as int) == last_slash(v@, v@.len() as int),
        decreases n,
    {
        if v[n - 1] == '/' {
            return Some(n - 1);
        }
        n = n - 1;
    }
    None
}

/// The directory that holds `path`, in normal form.
///
/// There is none for the root and for the empty path. A single relative
/// name is held by `.`, a name directly under the root by `/`.
pub fn parent_dir(path: &str) -> (r: Option<String>)
    ensures
        r is Some <==> parent_of(path@) is Some,
        r is Some ==> r->Some_0@ == parent_of(path@)->Some_0,
{
    let chars = chars_of(path);
    let normal = normalize(&chars);
    if normal.len() == 0 || (normal.len() == 1 && normal[0] == '/') {
        proof {
            if normal@.len() == 1 {
                assert(normal@ =~= seq!['/']);
            }
        }
        return None;
    }
    let mut out: Vec<char> = Vec::new();
    match find_last_slash(&normal) {
        None => {
            out.push('.');
            assert(out@ =~= seq!['.']);
        },
        Some(at) => {
            if at == 0 {
                out.push('/');
                assert(out@ =~= seq!['/']);
            } else {
                out = prefix(&normal, at);
            }
        },
    }
    Some(string_of(&out))
}

/// The last component of `path`, slashes at its end apart.
///
/// There is none for the empty path and for a path of slashes only.
pub fn base_name(path: &str) -> (r: Option<String>)
    ensures
        r is Some <==> name_of(path@) is Some,
        r is Some ==> r->Some_0@ == name_of(path@)->Some_0,
{
    let chars = chars_of(path);
    let e = trimmed_len(&chars);
    let trimmed = prefix(&chars, e);
    if trimmed.len() == 0 {
        return None;
    }
    let from = match find_last_slash(&trimmed) {
        Some(at) => at + 1,
        None => 0,
    };
    let mut out: Vec<char> = Vec::new();
    append_from(&mut out, &trimmed, from);
    assert(out@ =~= trimmed@.skip(from as int));
    Some(string_of(&out))
}

} // verus!
