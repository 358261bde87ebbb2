//! Path strings and their materialized form.
//!
//! A materialized path is the path with every separator written as `,`
//! and a `,` at each end, so that a subtree of libraries is found by a
//! prefix of its root's materialized path.

use vstd::prelude::*;

verus! {

/// The characters of `s` with every `from` written as `to`.
pub open spec fn replace_char(s: Seq<char>, from: char, to: char) -> Seq<char> {
    s.map_values(|c: char| if c == from { to } else { c })
}

/// Appends one character to a string: `String::push` of std.
#[verifier::external_body]
pub(crate) fn push_char(s: &mut String, c: char)
    ensures
        final(s)@ == old(s)@.push(c),
{
    s.push(c)
}

/// Writes every `from` of `s` as `to`.
pub fn replace_chars(s: &str, from: char, to: char) -> (res: String)
    ensures
        res@ == replace_char(s@, from, to),
{
    let mut res = String::new();
    for c in it: s.chars()
        invariant
            res@ == replace_char(it.seq().take(it.index()), from, to),
    {
        assert(it.seq().take(it.index() + 1) == it.seq().take(it.index()).push(c));
        push_char(&mut res, if c == from { to } else { c });
    }
    res
}


/// The separator of path components on this platform:
/// `std::path::MAIN_SEPARATOR`. std documents it as `/` on Unix and `\`
/// on Windows; the contract claims only that it is one of the two.
#[verifier::external_body]
pub(crate) fn main_separator() -> (c: char)
    ensures
        c == '/' || c == '\\',
{
    std::path::MAIN_SEPARATOR
}

/// A separator that some platform of std uses between path components.
pub open spec fn is_platform_separator(c: char) -> bool {
    c == '/' || c == '\\'
}

/// The path with the separator `sep` written as `/`.
pub open spec fn common_path(s: Seq<char>, sep: char) -> Seq<char> {
    replace_char(s, sep, '/')
}

/// The materialized form of a path whose separator is `sep`: `,`, the
/// components joined by `,`, and `,`.
pub open spec fn materialized(s: Seq<char>, sep: char) -> Seq<char> {
    seq![','] + replace_char(common_path(s, sep), '/', ',') + seq![',']
}

/// The path that a materialized path stands for: the characters between
/// its first and its last, with every `,` written as `/`.
pub open spec fn unmaterialized(m: Seq<char>) -> Seq<char> {
    replace_char(m.subrange(1, m.len() - 1), ',', '/')
}

/// Whether `m` can be read back as a path: at least two characters, the
/// first and the last of them ASCII (so that each is one byte long).
pub open spec fn is_materialized_shape(m: Seq<char>) -> bool {
    &&& m.len() >= 2
    &&& (m[0] as u32) < 128
    &&& (m[m.len() - 1] as u32) < 128
}

/// Whether `m` can be read back as a path, as `is_materialized_shape`
/// says.
pub fn is_materialized_text(m: &str) -> (res: bool)
    ensures
        res == is_materialized_shape(m@),
{
    let n = m.unicode_len();
    if n < 2 {
        return false;
    }
    let first = m.get_char(0);
    let last = m.get_char(n - 1);
    (first as u32) < 128 && (last as u32) < 128
}

/// Writes the separator `separator` of `path` as `/`.
pub fn replace_separator(path: &str, separator: char) -> (res: String)
    ensures
        res@ == common_path(path@, separator),
{
    replace_chars(path, separator, '/')
}

/// Writes the platform's separator of `path` as `/`, the separator that
/// the stored records use on every platform.
pub fn replace_with_common_separator(path: &str) -> (res: String)
    ensures
        exists|sep: char| is_platform_separator(sep) && res@ == common_path(path@, sep),
{
    let sep = main_separator();
    let res = replace_separator(path, sep);
    assert(is_platform_separator(sep) && res@ == common_path(path@, sep));
    res
}

/// The materialized form of `path`, written with `separator` between its
/// components.
pub fn materialize_with(path: &str, separator: char) -> (res: String)
    ensures
        res@ == materialized(path@, separator),
{
    let common = replace_separator(path, separator);
    let inner = replace_chars(common.as_str(), '/', ',');
    let mut res = String::new();
    push_char(&mut res, ',');
    for c in it: inner.as_str().chars()
        invariant
            res@ == seq![','] + it.seq().take(it.index()),
    {
        assert(it.seq().take(it.index() + 1) == it.seq().take(it.index()).push(c));
        push_char(&mut res, c);
    }
    push_char(&mut res, ',');
    res
}

/// The materialized form of `path`: `,`, its components joined by `,`,
/// and `,`. A library and everything under it are found by the prefix
/// that this form gives the library's root.
pub fn path_to_materialized(path: &str) -> (res: String)
    ensures
        exists|sep: char| is_platform_separator(sep) && res@ == materialized(path@, sep),
{
    let sep = main_separator();
    let res = materialize_with(path, sep);
    assert(is_platform_separator(sep) && res@ == materialized(path@, sep));
    res
}

/// The path that the materialized path `materialized_path` stands for:
/// its characters without the first and the last, every `,` written as
/// `/`.
pub fn materialized_to_path(materialized_path: &str) -> (res: String)
    requires
        is_materialized_shape(materialized_path@),
    ensures
        res@ == unmaterialized(materialized_path@),
{
    let n = materialized_path.unicode_len();
    let ghost m = materialized_path@;
    let mut res = String::new();
    let mut i: usize = 0;
    for c in it: materialized_path.chars()
        invariant
            n == m.len(),
            n >= 2,
            it.seq() == m,
            i == it.index(),
            i <= n,
            res@ == replace_char(m.subrange(1, if i <= 1 { 1 } else if i >= n { n - 1 } else { i as int }), ',', '/'),
    {
        assert(c == m[i as int]);
        if i >= 1 && i + 1 < n {
            assert(m.subrange(1, i + 1) == m.subrange(1, i as int).push(c));
            push_char(&mut res, if c == ',' { '/' } else { c });
        }
        i = i + 1;
    }
    res
}


/// Writing characters over a concatenation writes them over each part.
proof fn lemma_replace_concat(a: Seq<char>, b: Seq<char>, from: char, to: char)
    ensures
        replace_char(a + b, from, to) == replace_char(a, from, to) + replace_char(b, from, to),
{
    assert(replace_char(a + b, from, to) =~= replace_char(a, from, to) + replace_char(b, from, to));
}

/// Reading back a materialized path gives the path with its separators
/// written as `/`, for every path that holds no `,`; and every
/// materialized path can be read back.
pub proof fn materialized_round_trip(path: Seq<char>, sep: char)
    requires
        is_platform_separator(sep),
        !path.contains(','),
    ensures
        is_materialized_shape(materialized(path, sep)),
        unmaterialized(materialized(path, sep)) == common_path(path, sep),
{
    let m = materialized(path, sep);
    let inner = replace_char(common_path(path, sep), '/', ',');
    assert(m.subrange(1, m.len() - 1) =~= inner);
    assert forall|i: int| 0 <= i < path.len() implies #[trigger] common_path(path, sep)[i] != ',' by {
        if path[i] == ',' {
            assert(path.contains(','));
        }
    }
    assert(replace_char(inner, ',', '/') =~= common_path(path, sep));
}

/// The materialized form of a path is a prefix of the materialized form of
/// every path below it: a subtree of libraries is found by the prefix of
/// its root.
pub proof fn materialized_subtree_prefix(parent: Seq<char>, child: Seq<char>, sep: char)
    requires
        is_platform_separator(sep),
    ensures
        materialized(parent, sep).is_prefix_of(materialized(parent.push(sep) + child, sep)),
{
    let whole = parent.push(sep) + child;
    lemma_replace_concat(parent.push(sep), child, sep, '/');
    lemma_replace_concat(parent, seq![sep], sep, '/');
    assert(parent.push(sep) == parent + seq![sep]);
    let cp = common_path(parent, sep);
    let cc = common_path(child, sep);
    assert(replace_char(seq![sep], sep, '/') =~= seq!['/']);
    assert(common_path(whole, sep) == cp + seq!['/'] + cc);
    lemma_replace_concat(cp + seq!['/'], cc, '/', ',');
    lemma_replace_concat(cp, seq!['/'], '/', ',');
    assert(replace_char(seq!['/'], '/', ',') =~= seq![',']);
    let mp = replace_char(cp, '/', ',');
    let mc = replace_char(cc, '/', ',');
    assert(materialized(whole, sep) =~= seq![','] + mp + seq![','] + mc + seq![',']);
    assert(materialized(parent, sep) =~= seq![','] + mp + seq![',']);
    assert(materialized(whole, sep).subrange(0, materialized(parent, sep).len() as int)
        =~= materialized(parent, sep));
}

/// Writing the separator as `/` a second time changes nothing.
pub proof fn common_path_idempotent(path: Seq<char>, sep: char)
    requires
        is_platform_separator(sep),
    ensures
        common_path(common_path(path, sep), sep) == common_path(path, sep),
{
    assert(common_path(common_path(path, sep), sep) =~= common_path(path, sep));
}

/// A materialized path is a prefix of another exactly when the other path
/// is the same path or lies below it: for paths without `,`, a path whose
/// last component merely extends the first one's (`ab` beside `a`) is never
/// found by the first one's prefix.
pub proof fn materialized_prefix_exact(p: Seq<char>, q: Seq<char>, sep: char)
    requires
        is_platform_separator(sep),
        !p.contains(','),
        !q.contains(','),
    ensures
        materialized(p, sep).is_prefix_of(materialized(q, sep)) <==> (common_path(q, sep) == common_path(p, sep)
            || common_path(p, sep).push('/').is_prefix_of(common_path(q, sep))),
{
    let a = common_path(p, sep);
    let b = common_path(q, sep);
    let fa = replace_char(a, '/', ',');
    let fb = replace_char(b, '/', ',');
    let ma = materialized(p, sep);
    let mb = materialized(q, sep);
    assert forall|i: int| 0 <= i < a.len() implies a[i] != ',' by {
        if p[i] == ',' {
            assert(p.contains(','));
        }
    }
    assert forall|i: int| 0 <= i < b.len() implies b[i] != ',' by {
        if q[i] == ',' {
            assert(q.contains(','));
        }
    }
    assert(ma =~= seq![','] + fa + seq![',']);
    assert(mb =~= seq![','] + fb + seq![',']);
    if ma.is_prefix_of(mb) {
        assert forall|i: int| 0 <= i < a.len() implies b[i] == a[i] by {
            assert(ma[i + 1] == mb[i + 1]);
            assert(fa[i] == fb[i]);
        }
        if a.len() == b.len() {
            assert(b =~= a);
        } else {
            assert(ma[a.len() as int + 1] == mb[a.len() as int + 1]);
            assert(fb[a.len() as int] == ',');
            assert(b[a.len() as int] == '/');
            assert(a.push('/') =~= b.subrange(0, a.len() as int + 1));
        }
    }
    if b == a {
        assert(ma =~= mb);
    }
    if a.push('/').is_prefix_of(b) {
        assert forall|i: int| 0 <= i < ma.len() implies ma[i] == mb[i] by {
            if 1 <= i <= a.len() {
                assert(b[i - 1] == a.push('/')[i - 1]);
            } else if i == a.len() + 1 {
                assert(b[a.len() as int] == a.push('/')[a.len() as int]);
            }
        }
        assert(ma =~= mb.subrange(0, ma.len() as int));
    }
}

} // verus!
