//! Chart library rules: file names of stored charts, the path-traversal guard,
//! and the order of the library listing. Reading and writing files is done by the caller.
use vstd::prelude::*;

use crate::text::{chars_of, ends_with, starts_with, string_from_chars};

verus! {

/// Summary of a stored chart.
#[derive(Debug, Clone)]
pub struct ChartMeta {
    pub id: String,
    pub title: String,
    pub character: Option<String>,
    pub tags: Vec<String>,
    /// File name inside the library (not a full path).
    pub file: String,
}

/// Why a library request was refused.
#[derive(Debug, Clone, Copy, PartialEq, Eq, Structural)]
pub enum StoreError {
    /// The name has no final file component.
    InvalidName,
}

/// Characters kept in a stored file name: ASCII letters and digits, `-` and `_`.
pub open spec fn is_name_char(c: char) -> bool {
    ('a' <= c && c <= 'z') || ('A' <= c && c <= 'Z') || ('0' <= c && c <= '9') || c == '-' || c
        == '_'
}

/// `s` with every character outside [`is_name_char`] replaced by `_`.
pub open spec fn sanitized(s: Seq<char>) -> Seq<char> {
    s.map_values(|c: char| if is_name_char(c) { c } else { '_' })
}

/// Replaces every character that is not an ASCII letter, digit, `-` or `_` by `_`.
pub fn sanitize(s: &str) -> (r: String)
    ensures
        r@ == sanitized(s@),
{
    let cs = chars_of(s);
    let mut out: Vec<char> = Vec::new();
    let mut i: usize = 0;
    while i < cs.len()
        invariant
            i <= cs.len(),
            cs@ == s@,
            out@ == sanitized(s@.take(i as int)),
        decreases cs.len() - i,
    {
        let c = cs[i];
        let keep = ('a' <= c && c <= 'z') || ('A' <= c && c <= 'Z') || ('0' <= c && c <= '9') || c
            == '-' || c == '_';
        if keep {
            out.push(c);
        } else {
            out.push('_');
        }
        assert(sanitized(s@.take(i + 1)) =~= sanitized(s@.take(i as int)).push(
            if is_name_char(c) {
                c
            } else {
                '_'
            },
        ));
        i = i + 1;
    }
    assert(s@.take(i as int) =~= s@);
    string_from_chars(out)
}

/// Library file name of a chart: its id sanitized, with the `.json` extension.
pub fn chart_file_name(id: &str) -> (r: String)
    ensures
        r@ == sanitized(id@) + ".json"@,
{
    let base = sanitize(id);
    let mut out = chars_of(base.as_str());
    let mut ext = chars_of(".json");
    out.append(&mut ext);
    string_from_chars(out)
}

/// `s` is `..` or ends in a `..` component after a `/`.
pub open spec fn ends_in_parent(s: Seq<char>) -> bool {
    s == seq!['.', '.'] || ends_with(s, seq!['/', '.', '.'])
}

/// The part of `s` after its last `/` (all of `s` when it has none).
pub open spec fn last_component(s: Seq<char>) -> Seq<char>
    decreases s.len(),
{
    if s.len() == 0 {
        s
    } else if s.last() == '/' {
        Seq::empty()
    } else {
        last_component(s.drop_last()).push(s.last())
    }
}

/// `s` holds no `\` and does not begin with `//`: no platform reads a verbatim, UNC or
/// device prefix in it, and `/` separates its components on every platform.
pub open spec fn no_special_prefix(s: Seq<char>) -> bool {
    !s.contains('\\') && !starts_with(s, seq!['/', '/'])
}

/// `c` can be a path's final normal component: not empty, not `.` or `..`.
pub open spec fn is_component(c: Seq<char>) -> bool {
    c.len() > 0 && c != seq!['.'] && c != seq!['.', '.']
}

/// `s` does not begin with a drive prefix (`X:`) that could swallow its final component:
/// it holds a `/`, or its second character is not `:`.
pub open spec fn no_drive_prefix(s: Seq<char>) -> bool {
    s.contains('/') || !(s.len() >= 2 && s[1] == ':')
}

/// std's `Path::file_name`, turned into a `String` with `to_string_lossy` (exact here,
/// since the path comes from a `&str`). Its documentation says that it returns the
/// final component of the path, the file name itself for a plain file name, and
/// `None` where the path terminates in `..` or has no component. Claimed here: the
/// empty path gives `None`; and for a path without `\` that does not begin with `//`
/// (so that `/` separates components and no verbatim, UNC or device prefix exists, on
/// every platform): a returned name holds no `/`; a path ending in `..` gives `None`;
/// and when the part after the last `/` is a component (not empty, `.` or `..`) and no
/// drive prefix `X:` can swallow it, that part comes back unchanged. Left unsaid: the
/// result for paths with `\`, a leading `//` or a drive prefix without `/`, which
/// depends on the platform's separators and prefixes (on Windows a verbatim `\\?\`
/// prefix makes `\` the only separator, and `C:x` names `x`).
#[verifier::external_body]
fn path_file_name(file: &str) -> (r: Option<String>)
    ensures
        file@.len() == 0 ==> r is None,
        no_special_prefix(file@) && r is Some ==> !r->0@.contains('/'),
        no_special_prefix(file@) && no_drive_prefix(file@) && is_component(
            last_component(file@),
        ) ==> r is Some && r->0@ == last_component(file@),
        no_special_prefix(file@) && ends_in_parent(file@) ==> r is None,
{
    std::path::Path::new(file).file_name().map(|n| n.to_string_lossy().into_owned())
}

/// The final component of a path, or the refusal of a name that has none.
pub fn checked_file_name(name: Option<String>) -> (r: Result<String, StoreError>)
    ensures
        match name {
            Some(n) => r == Ok::<String, StoreError>(n),
            None => r == Err::<String, StoreError>(StoreError::InvalidName),
        },
{
    match name {
        Some(n) => Ok(n),
        None => Err(StoreError::InvalidName),
    }
}

/// Path-traversal guard: keeps only the final file-name component of `file`.
/// For a path without `\` that does not begin with `//`: the part after the last `/`
/// passes unchanged when it is a component (not empty, `.` or `..`) and no drive
/// prefix `X:` stands before it without a `/`; what passes never holds a `/`; a path
/// that ends in `..` is refused. The empty name is refused. Errors are always
/// `InvalidName`.
pub fn safe_name(file: &str) -> (r: Result<String, StoreError>)
    ensures
        r matches Err(e) ==> e == StoreError::InvalidName,
        file@.len() == 0 ==> r == Err::<String, StoreError>(StoreError::InvalidName),
        no_special_prefix(file@) && r is Ok ==> !r->Ok_0@.contains('/'),
        no_special_prefix(file@) && no_drive_prefix(file@) && is_component(
            last_component(file@),
        ) ==> r is Ok && r->Ok_0@ == last_component(file@),
        no_special_prefix(file@) && ends_in_parent(file@) ==> r == Err::<String, StoreError>(
            StoreError::InvalidName,
        ),
{
    checked_file_name(path_file_name(file))
}

/// `a` sorts before or together with `b` (character-code lexicographic order, the
/// order of UTF-8 bytes).
pub open spec fn text_le(a: Seq<char>, b: Seq<char>) -> bool
    decreases a.len(),
{
    if a.len() == 0 {
        true
    } else if b.len() == 0 {
        false
    } else if a[0] != b[0] {
        a[0] < b[0]
    } else {
        text_le(a.drop_first(), b.drop_first())
    }
}

fn chars_le(a: &Vec<char>, b: &Vec<char>) -> (r: bool)
    ensures
        r == text_le(a@, b@),
{
    let mut i: usize = 0;
    assert(a@.skip(0) =~= a@);
    assert(b@.skip(0) =~= b@);
    while i < a.len() && i < b.len() && a[i] == b[i]
        invariant
            i <= a.len(),
            i <= b.len(),
            text_le(a@, b@) == text_le(a@.skip(i as int), b@.skip(i as int)),
        decreases a.len() - i,
    {
        assert(a@.skip(i as int).drop_first() =~= a@.skip(i + 1));
        assert(b@.skip(i as int).drop_first() =~= b@.skip(i + 1));
        i = i + 1;
    }
    if i == a.len() {
        true
    } else if i == b.len() {
        false
    } else {
        assert(a@.skip(i as int)[0] == a@[i as int]);
        assert(b@.skip(i as int)[0] == b@[i as int]);
        a[i] < b[i]
    }
}

/// Where an entry with title `key` goes in a title-ordered listing: after every
/// entry whose title sorts no later.
pub open spec fn title_pos(sorted: Seq<ChartMeta>, key: Seq<char>) -> int
    decreases sorted.len(),
{
    if sorted.len() == 0 {
        0
    } else if text_le(sorted.last().title@, key) {
        sorted.len() as int
    } else {
        title_pos(sorted.drop_last(), key)
    }
}

/// Stable ordering of library entries by title.
pub open spec fn sort_by_title(s: Seq<ChartMeta>) -> Seq<ChartMeta>
    decreases s.len(),
{
    if s.len() == 0 {
        s
    } else {
        let rest = sort_by_title(s.drop_last());
        rest.insert(title_pos(rest, s.last().title@), s.last())
    }
}

/// The library listing ordered by title; entries with equal titles keep their order.
pub fn order_by_title(metas: Vec<ChartMeta>) -> (r: Vec<ChartMeta>)
    ensures
        r@ == sort_by_title(metas@),
{
    let ghost orig = metas@;
    assert(orig.len() == metas.len());
    let mut rest = metas;
    let mut out: Vec<ChartMeta> = Vec::new();
    let mut done: usize = 0;
    while rest.len() > 0
        invariant
            done <= orig.len(),
            orig.len() <= usize::MAX,
            rest@ == orig.skip(done as int),
            out@ == sort_by_title(orig.take(done as int)),
        decreases rest.len(),
    {
        let m = rest.remove(0);
        assert(orig.take(done + 1).drop_last() =~= orig.take(done as int));
        assert(orig.take(done + 1).last() == m);
        let key = chars_of(m.title.as_str());
        let mut k: usize = out.len();
        assert(out@.take(k as int) =~= out@);
        while k > 0 && !chars_le(&chars_of(out[k - 1].title.as_str()), &key)
            invariant
                k <= out.len(),
                key@ == m.title@,
                title_pos(out@, m.title@) == title_pos(out@.take(k as int), m.title@),
            decreases k,
        {
            assert(out@.take(k as int).drop_last() =~= out@.take(k - 1));
            k = k - 1;
        }
        assert(title_pos(out@, m.title@) == k as int) by {
            if k > 0 {
                assert(out@.take(k as int).last() == out@[k - 1]);
            }
        };
        out.insert(k, m);
        assert(rest@ =~= orig.skip(done + 1));
        done = done + 1;
    }
    assert(orig.take(done as int) =~= orig);
    out
}

/// Stored file names consist of name characters only: a chart id can never lead out
/// of the library directory, and sanitizing twice changes nothing.
pub proof fn law_sanitized_names(s: Seq<char>)
    ensures
        forall|i: int| 0 <= i < sanitized(s).len() ==> is_name_char(#[trigger] sanitized(s)[i]),
        sanitized(sanitized(s)) == sanitized(s),
        sanitized(s).len() == s.len(),
{
    assert(sanitized(sanitized(s)) =~= sanitized(s));
}

/// Title order is total.
pub proof fn lemma_text_le_total(a: Seq<char>, b: Seq<char>)
    ensures
        text_le(a, b) || text_le(b, a),
    decreases a.len(),
{
    if a.len() > 0 && b.len() > 0 && a[0] == b[0] {
        lemma_text_le_total(a.drop_first(), b.drop_first());
    }
}

/// Title order is transitive.
pub proof fn lemma_text_le_transitive(a: Seq<char>, b: Seq<char>, c: Seq<char>)
    requires
        text_le(a, b),
        text_le(b, c),
    ensures
        text_le(a, c),
    decreases a.len(),
{
    if a.len() > 0 && b.len() > 0 && c.len() > 0 && a[0] == b[0] && b[0] == c[0] {
        lemma_text_le_transitive(a.drop_first(), b.drop_first(), c.drop_first());
    }
}

/// Ordered by title.
pub open spec fn title_ordered(s: Seq<ChartMeta>) -> bool {
    forall|i: int, j: int| 0 <= i < j < s.len() ==> text_le(s[i].title@, s[j].title@)
}

proof fn lemma_title_pos_splits(sorted: Seq<ChartMeta>, key: Seq<char>)
    requires
        title_ordered(sorted),
    ensures
        0 <= title_pos(sorted, key) <= sorted.len(),
        forall|i: int| 0 <= i < title_pos(sorted, key) ==> text_le(#[trigger] sorted[i].title@, key),
        forall|i: int|
            title_pos(sorted, key) <= i < sorted.len() ==> !text_le(#[trigger] sorted[i].title@, key),
    decreases sorted.len(),
{
    if sorted.len() > 0 {
        let d = sorted.drop_last();
        assert forall|i: int, j: int| 0 <= i < j < d.len() implies text_le(d[i].title@, d[j].title@) by {
            assert(d[i] == sorted[i] && d[j] == sorted[j]);
        }
        if !text_le(sorted.last().title@, key) {
            lemma_title_pos_splits(d, key);
            assert forall|i: int| title_pos(sorted, key) <= i < sorted.len() implies !text_le(
                #[trigger] sorted[i].title@,
                key,
            ) by {
                assert(title_pos(sorted, key) == title_pos(d, key));
                if i < d.len() {
                    assert(sorted[i] == d[i]);
                    assert(!text_le(d[i].title@, key));
                } else {
                    assert(sorted[i] == sorted.last());
                }
            }
            assert forall|i: int| 0 <= i < title_pos(sorted, key) implies text_le(
                #[trigger] sorted[i].title@,
                key,
            ) by {
                assert(sorted[i] == d[i]);
            }
        } else {
            assert forall|i: int| 0 <= i < title_pos(sorted, key) implies text_le(
                #[trigger] sorted[i].title@,
                key,
            ) by {
                if i < sorted.len() - 1 {
                    lemma_text_le_transitive(
                        sorted[i].title@,
                        sorted[sorted.len() - 1].title@,
                        key,
                    );
                }
            }
        }
    }
}

/// The library listing is ordered by title and holds exactly the entries it was given.
pub proof fn law_listing_ordered(s: Seq<ChartMeta>)
    ensures
        title_ordered(sort_by_title(s)),
        sort_by_title(s).to_multiset() == s.to_multiset(),
    decreases s.len(),
{
    broadcast use vstd::seq_lib::to_multiset_insert, vstd::seq_lib::to_multiset_build;

    if s.len() > 0 {
        let rest = sort_by_title(s.drop_last());
        law_listing_ordered(s.drop_last());
        let x = s.last();
        let k = title_pos(rest, x.title@);
        lemma_title_pos_splits(rest, x.title@);
        rest.insert_ensures(k, x);
        let r = rest.insert(k, x);
        assert forall|i: int, j: int| 0 <= i < j < r.len() implies text_le(
            r[i].title@,
            r[j].title@,
        ) by {
            if j < k {
                assert(r[i] == rest[i] && r[j] == rest[j]);
                assert(text_le(rest[i].title@, rest[j].title@));
            } else if j == k {
                assert(r[i] == rest[i] && r[j] == x);
                assert(text_le(rest[i].title@, x.title@));
            } else if i < k {
                assert(r[i] == rest[i] && r[j] == rest[j - 1]);
                assert(text_le(rest[i].title@, x.title@));
                assert(!text_le(rest[j - 1].title@, x.title@));
                lemma_text_le_total(rest[j - 1].title@, x.title@);
                lemma_text_le_transitive(rest[i].title@, x.title@, rest[j - 1].title@);
            } else if i == k {
                assert(r[i] == x && r[j] == rest[j - 1]);
                assert(!text_le(rest[j - 1].title@, x.title@));
                lemma_text_le_total(rest[j - 1].title@, x.title@);
            } else {
                assert(r[j] == rest[j - 1]);
                assert(r[i] == rest[i - 1]);
                assert(text_le(rest[i - 1].title@, rest[j - 1].title@));
            }
        }
        assert(s.drop_last().push(x) =~= s);
    }
}

} // verus!
