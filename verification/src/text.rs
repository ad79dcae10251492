//! Character-level text primitives shared by the configuration and session
//! stores: searching, trimming, splitting, joining and quote escaping, each
//! stated over `Seq<char>` and implemented over `Vec<char>`.
use vstd::prelude::*;

verus! {

// ---------------------------------------------------------------------------
// Specifications
// ---------------------------------------------------------------------------

/// The Unicode `White_Space` property, which is what `char::is_whitespace`
/// tests and therefore what `str::trim` and `str::trim_start` strip.
pub open spec fn is_white_space(c: char) -> bool {
    let n = c as u32;
    ||| (0x09 <= n && n <= 0x0D)
    ||| n == 0x20
    ||| n == 0x85
    ||| n == 0xA0
    ||| n == 0x1680
    ||| (0x2000 <= n && n <= 0x200A)
    ||| n == 0x2028
    ||| n == 0x2029
    ||| n == 0x202F
    ||| n == 0x205F
    ||| n == 0x3000
}

/// `pat` occurs in `s` starting at index `i`.
pub open spec fn occurs_at(s: Seq<char>, pat: Seq<char>, i: int) -> bool {
    0 <= i && i + pat.len() <= s.len() && s.subrange(i, i + pat.len()) == pat
}

/// The first index `>= i` at which `pat` occurs in `s`.
pub open spec fn find_from(s: Seq<char>, pat: Seq<char>, i: int) -> Option<int>
    decreases s.len() - i,
{
    if i < 0 || i + pat.len() > s.len() {
        None
    } else if s.subrange(i, i + pat.len()) =~= pat {
        Some(i)
    } else {
        find_from(s, pat, i + 1)
    }
}

/// The index of the first occurrence of `pat` in `s` (what `str::find` gives,
/// counted in characters).
pub open spec fn find(s: Seq<char>, pat: Seq<char>) -> Option<int> {
    find_from(s, pat, 0)
}

/// `s` begins with `p`.
pub open spec fn starts_with(s: Seq<char>, p: Seq<char>) -> bool {
    p.len() <= s.len() && s.take(p.len() as int) == p
}

/// `s` without its leading white space (`str::trim_start`).
pub open spec fn trim_start(s: Seq<char>) -> Seq<char>
    decreases s.len(),
{
    if s.len() > 0 && is_white_space(s[0]) {
        trim_start(s.drop_first())
    } else {
        s
    }
}

/// `s` without its trailing white space (`str::trim_end`).
pub open spec fn trim_end(s: Seq<char>) -> Seq<char>
    decreases s.len(),
{
    if s.len() > 0 && is_white_space(s.last()) {
        trim_end(s.drop_last())
    } else {
        s
    }
}

/// `s` without leading and trailing white space (`str::trim`).
pub open spec fn trim(s: Seq<char>) -> Seq<char> {
    trim_end(trim_start(s))
}

/// `s` without its leading copies of `c`.
pub open spec fn trim_start_char(s: Seq<char>, c: char) -> Seq<char>
    decreases s.len(),
{
    if s.len() > 0 && s[0] == c {
        trim_start_char(s.drop_first(), c)
    } else {
        s
    }
}

/// `s` without its trailing copies of `c`.
pub open spec fn trim_end_char(s: Seq<char>, c: char) -> Seq<char>
    decreases s.len(),
{
    if s.len() > 0 && s.last() == c {
        trim_end_char(s.drop_last(), c)
    } else {
        s
    }
}

/// `s` without leading and trailing copies of `c` (`str::trim_matches(c)`).
pub open spec fn trim_char(s: Seq<char>, c: char) -> Seq<char> {
    trim_end_char(trim_start_char(s, c), c)
}

/// The pieces of `s` between the copies of `c` (`str::split(c)`): one more
/// piece than `s` has copies of `c`.
pub open spec fn split_char(s: Seq<char>, c: char) -> Seq<Seq<char>>
    decreases s.len(),
{
    if s.len() == 0 {
        seq![Seq::<char>::empty()]
    } else {
        let rest = split_char(s.drop_first(), c);
        if s[0] == c {
            seq![Seq::<char>::empty()] + rest
        } else {
            rest.update(0, seq![s[0]] + rest[0])
        }
    }
}

/// `split_char` always gives at least one piece.
pub proof fn lemma_split_char_len(s: Seq<char>, c: char)
    ensures
        split_char(s, c).len() >= 1,
    decreases s.len(),
{
    if s.len() > 0 {
        lemma_split_char_len(s.drop_first(), c);
    }
}

/// The parts joined with `sep` between consecutive parts.
pub open spec fn join(parts: Seq<Seq<char>>, sep: Seq<char>) -> Seq<char>
    decreases parts.len(),
{
    if parts.len() == 0 {
        Seq::empty()
    } else if parts.len() == 1 {
        parts[0]
    } else {
        parts[0] + sep + join(parts.drop_first(), sep)
    }
}

/// What replacing each `"` by `\"` makes of one character.
pub open spec fn escape_char(c: char) -> Seq<char> {
    if c == '"' {
        seq!['\\', '"']
    } else {
        seq![c]
    }
}

/// `s` with every `"` replaced by `\"` (`str::replace('"', "\\\"")`).
pub open spec fn escape_quotes(s: Seq<char>) -> Seq<char>
    decreases s.len(),
{
    if s.len() == 0 {
        Seq::empty()
    } else {
        escape_quotes(s.drop_last()) + escape_char(s.last())
    }
}

/// The text before the first line break (all of `s` where there is none).
pub open spec fn first_line(s: Seq<char>) -> Seq<char> {
    match find(s, seq!['\n']) {
        Some(i) => s.take(i),
        None => s,
    }
}

/// `s` holds no `"`.
pub open spec fn quote_free(s: Seq<char>) -> bool {
    forall|i: int| 0 <= i < s.len() ==> s[i] != '"'
}

/// `s` is `"` + `v` + `"`: the JSON-style quoted form used by the stores.
pub open spec fn quoted(v: Seq<char>) -> Seq<char> {
    seq!['"'] + escape_quotes(v) + seq!['"']
}

/// The stored form of an optional string: quoted, or the word `null`.
pub open spec fn optional_json(v: Option<Seq<char>>) -> Seq<char> {
    match v {
        Some(s) => quoted(s),
        None => "null"@,
    }
}

// ---------------------------------------------------------------------------
// Lemmas
// ---------------------------------------------------------------------------

/// `find_from` gives the first occurrence at or after `i`, or none.
pub proof fn lemma_find_from(s: Seq<char>, pat: Seq<char>, i: int)
    requires
        0 <= i,
    ensures
        find_from(s, pat, i) matches Some(k) ==> i <= k && occurs_at(s, pat, k) && forall|j: int|
            i <= j < k ==> !occurs_at(s, pat, j),
        find_from(s, pat, i) is None ==> forall|j: int| i <= j ==> !occurs_at(s, pat, j),
    decreases s.len() - i,
{
    if i + pat.len() > s.len() {
    } else if s.subrange(i, i + pat.len()) =~= pat {
    } else {
        lemma_find_from(s, pat, i + 1);
        assert forall|j: int| i <= j < i + 1 implies !occurs_at(s, pat, j) by {}
    }
}

/// A first occurrence at `k` (none at `i..k`) is what `find_from` gives.
pub proof fn lemma_find_from_at(s: Seq<char>, pat: Seq<char>, i: int, k: int)
    requires
        0 <= i <= k,
        occurs_at(s, pat, k),
        forall|j: int| i <= j < k ==> !occurs_at(s, pat, j),
    ensures
        find_from(s, pat, i) == Some(k),
    decreases k - i,
{
    if i < k {
        assert(!occurs_at(s, pat, i));
        lemma_find_from_at(s, pat, i + 1, k);
    }
}

/// No occurrence at or after `i` means `find_from` gives none.
pub proof fn lemma_find_from_none(s: Seq<char>, pat: Seq<char>, i: int)
    requires
        0 <= i,
        forall|j: int| i <= j ==> !occurs_at(s, pat, j),
    ensures
        find_from(s, pat, i) is None,
    decreases s.len() - i,
{
    if i + pat.len() <= s.len() {
        assert(!occurs_at(s, pat, i));
        lemma_find_from_none(s, pat, i + 1);
    }
}

/// Where `s` has no copy of `c` before index `k` and `c` at `k`, `find`
/// of `c` gives `k`.
pub proof fn lemma_find_char(s: Seq<char>, c: char, k: int)
    requires
        0 <= k < s.len(),
        s[k] == c,
        forall|j: int| 0 <= j < k ==> s[j] != c,
    ensures
        find(s, seq![c]) == Some(k),
{
    assert(s.subrange(k, k + 1) =~= seq![c]);
    assert forall|j: int| 0 <= j < k implies !occurs_at(s, seq![c], j) by {
        if occurs_at(s, seq![c], j) {
            assert(s.subrange(j, j + 1)[0] == s[j]);
        }
    }
    lemma_find_from_at(s, seq![c], 0, k);
}

/// A string without `"` is its own escaped form.
pub proof fn lemma_escape_quote_free(s: Seq<char>)
    requires
        quote_free(s),
    ensures
        escape_quotes(s) == s,
    decreases s.len(),
{
    if s.len() > 0 {
        lemma_escape_quote_free(s.drop_last());
        assert(s.drop_last() + seq![s.last()] =~= s);
    }
}

/// Escaping distributes over appending one character.
pub proof fn lemma_escape_push(s: Seq<char>, c: char)
    ensures
        escape_quotes(s.push(c)) == escape_quotes(s) + escape_char(c),
{
    assert(s.push(c).drop_last() =~= s);
}

/// Appending a part at the end of a join.
pub proof fn lemma_join_push(parts: Seq<Seq<char>>, sep: Seq<char>, p: Seq<char>)
    ensures
        parts.len() == 0 ==> join(parts.push(p), sep) == p,
        parts.len() > 0 ==> join(parts.push(p), sep) == join(parts, sep) + sep + p,
    decreases parts.len(),
{
    if parts.len() == 0 {
    } else if parts.len() == 1 {
        assert(parts.push(p).drop_first() =~= seq![p]);
        assert(join(seq![p], sep) == p);
    } else {
        lemma_join_push(parts.drop_first(), sep, p);
        assert(parts.push(p).drop_first() =~= parts.drop_first().push(p));
        assert(parts.push(p)[0] == parts[0]);
        assert(join(parts.push(p), sep) == parts[0] + sep + join(parts.drop_first().push(p), sep));
        assert(parts[0] + sep + (join(parts.drop_first(), sep) + sep + p) =~= (parts[0] + sep
            + join(parts.drop_first(), sep)) + sep + p);
    }
}

/// Joining two non-empty runs of parts puts the separator between them.
pub proof fn lemma_join_append(a: Seq<Seq<char>>, b: Seq<Seq<char>>, sep: Seq<char>)
    requires
        a.len() >= 1,
        b.len() >= 1,
    ensures
        join(a + b, sep) == join(a, sep) + sep + join(b, sep),
    decreases a.len(),
{
    if a.len() == 1 {
        assert((a + b).drop_first() =~= b);
        assert((a + b)[0] == a[0]);
    } else {
        lemma_join_append(a.drop_first(), b, sep);
        assert((a + b).drop_first() =~= a.drop_first() + b);
        assert((a + b)[0] == a[0]);
        assert(a[0] + sep + (join(a.drop_first(), sep) + sep + join(b, sep)) =~= (a[0] + sep
            + join(a.drop_first(), sep)) + sep + join(b, sep));
    }
}

/// `trim_start` of a string that starts with a non-white-space character.
pub proof fn lemma_trim_start_stops(s: Seq<char>)
    requires
        s.len() > 0,
        !is_white_space(s[0]),
    ensures
        trim_start(s) == s,
{
}

// ---------------------------------------------------------------------------
// Looking up a quoted key in a text made of quote-free pieces
// ---------------------------------------------------------------------------

/// The key that introduces `field` in a stored text: `"field":`.
pub open spec fn field_key(field: Seq<char>) -> Seq<char> {
    seq!['"'] + field + seq!['"', ':']
}

/// The pieces that follow a key for an optional string, and the text after
/// it, in a text cut at its quotes: a colon and a space, the string, and the
/// text after it; or the word `null` and the text after it, as one piece.
pub open spec fn optional_pieces(v: Option<Seq<char>>, after: Seq<char>) -> Seq<Seq<char>> {
    match v {
        Some(s) => seq![": "@, s, after],
        None => seq![": null"@ + after],
    }
}

/// Every piece is free of `"`.
pub open spec fn all_quote_free(segs: Seq<Seq<char>>) -> bool {
    forall|k: int| 0 <= k < segs.len() ==> quote_free(#[trigger] segs[k])
}

/// Piece `m` of a quote-joined text is the key `field`: it is `field`, and
/// the piece after its closing quote starts with `:`.
pub open spec fn is_key_at(segs: Seq<Seq<char>>, field: Seq<char>, m: int) -> bool {
    1 <= m && m + 1 < segs.len() && segs[m] == field && starts_with(segs[m + 1], seq![':'])
}

/// Occurrences of `pat` in `y` are those of `pat` in `x + y`, shifted by
/// the length of `x`.
pub proof fn lemma_find_shift(x: Seq<char>, y: Seq<char>, pat: Seq<char>)
    ensures
        find_from(x + y, pat, x.len() as int) == match find(y, pat) {
            Some(p) => Some(p + x.len()),
            None => None::<int>,
        },
{
    let s = x + y;
    assert forall|j: int| 0 <= j implies occurs_at(s, pat, x.len() + j) == occurs_at(y, pat, j) by {
        if j + pat.len() <= y.len() {
            assert(s.subrange(x.len() + j, x.len() + j + pat.len()) =~= y.subrange(
                j,
                j + pat.len(),
            ));
        }
    }
    lemma_find_from(y, pat, 0);
    match find(y, pat) {
        Some(p) => {
            assert forall|j: int| x.len() <= j < p + x.len() implies !occurs_at(s, pat, j) by {
                assert(occurs_at(s, pat, x.len() + (j - x.len())) == occurs_at(
                    y,
                    pat,
                    j - x.len(),
                ));
            }
            lemma_find_from_at(s, pat, x.len() as int, p + x.len());
        },
        None => {
            assert forall|j: int| x.len() <= j implies !occurs_at(s, pat, j) by {
                assert(occurs_at(s, pat, x.len() + (j - x.len())) == occurs_at(
                    y,
                    pat,
                    j - x.len(),
                ));
            }
            lemma_find_from_none(s, pat, x.len() as int);
        },
    }
}

/// No occurrence before `i` lets `find` start looking at `i`.
pub proof fn lemma_find_skip_start(s: Seq<char>, pat: Seq<char>, i: int)
    requires
        0 <= i,
        forall|j: int| 0 <= j < i ==> !occurs_at(s, pat, j),
    ensures
        find(s, pat) == find_from(s, pat, i),
{
    lemma_find_from(s, pat, i);
    match find_from(s, pat, i) {
        Some(k) => {
            lemma_find_from_at(s, pat, 0, k);
        },
        None => {
            lemma_find_from_none(s, pat, 0);
        },
    }
}

/// A quote-joined text of two or more pieces starts with the first piece and
/// a quote.
pub proof fn lemma_join_unfold(segs: Seq<Seq<char>>, sep: Seq<char>)
    requires
        segs.len() >= 2,
    ensures
        join(segs, sep) == segs[0] + sep + join(segs.drop_first(), sep),
{
}

/// The pieces from `k` on, unfolded by one.
pub proof fn lemma_skip_unfold(segs: Seq<Seq<char>>, k: int)
    requires
        0 <= k < segs.len(),
    ensures
        segs.skip(k)[0] == segs[k],
        segs.skip(k).drop_first() == segs.skip(k + 1),
{
    assert(segs.skip(k).drop_first() =~= segs.skip(k + 1));
}

/// A quote-joined text starts with its first piece.
pub proof fn lemma_join_starts(segs: Seq<Seq<char>>, sep: Seq<char>)
    requires
        segs.len() >= 1,
    ensures
        join(segs, sep).len() >= segs[0].len(),
        join(segs, sep).take(segs[0].len() as int) == segs[0],
        segs.len() >= 2 && sep.len() >= 1 ==> join(segs, sep).len() > segs[0].len(),
        segs.len() >= 2 && sep.len() >= 1 ==> join(segs, sep)[segs[0].len() as int] == sep[0],
{
    if segs.len() >= 2 {
        lemma_join_unfold(segs, sep);
        assert(join(segs, sep).take(segs[0].len() as int) =~= segs[0]);
    } else {
        assert(join(segs, sep).take(segs[0].len() as int) =~= segs[0]);
    }
}

/// In a text made of pieces joined by quotes, where the pieces up to `m` are
/// quote-free, the first key `"field":` is found at piece `m` when no
/// earlier piece is that key, and what follows the key is the rest of piece
/// `m + 1` and the pieces after it.
pub proof fn lemma_find_key(segs: Seq<Seq<char>>, field: Seq<char>, m: int)
    requires
        forall|k: int| 0 <= k <= m ==> quote_free(#[trigger] segs[k]),
        quote_free(field),
        is_key_at(segs, field, m),
        forall|k: int| 1 <= k < m ==> !is_key_at(segs, field, k),
    ensures
        find(join(segs, seq!['"']), field_key(field)) matches Some(p) && join(
            segs,
            seq!['"'],
        ).skip(p + field_key(field).len()) == join(segs.skip(m + 1), seq!['"']).drop_first(),
    decreases m,
{
    let q = seq!['"'];
    let s = join(segs, q);
    let a = segs[0];
    let t = join(segs.drop_first(), q);
    let pat = field_key(field);
    let al: int = a.len() as int;
    let fl: int = field.len() as int;
    let pl: int = pat.len() as int;
    lemma_join_unfold(segs, q);
    assert(quote_free(segs[0]));
    // No occurrence starts inside the first piece: `pat` starts with a quote.
    assert forall|j: int| 0 <= j < a.len() implies !occurs_at(s, pat, j) by {
        if occurs_at(s, pat, j) {
            assert(s.subrange(j, j + pat.len())[0] == s[j]);
            assert(s[j] == a[j]);
        }
    }
    let rest = segs.drop_first();
    assert(rest[0] == segs[1]);
    assert(quote_free(segs[1]));
    lemma_skip_unfold(segs, 1);
    lemma_skip_unfold(segs, 2);
    assert(segs.skip(1) == rest) by {
        assert(segs.skip(1) =~= rest);
    }
    lemma_join_unfold(rest, q);
    let u = join(segs.skip(2), q);
    assert(t == segs[1] + q + u);
    lemma_join_starts(segs.skip(2), q);
    if m == 1 {
        // The key is right after the first piece.
        assert(s == a + q + field + q + u) by {
            assert(s =~= a + q + field + q + u);
        }
        assert(u[0] == ':') by {
            assert(u.take(segs[2].len() as int)[0] == u[0]);
            assert(segs[2].take(1)[0] == segs[2][0]);
        }
        assert(s.subrange(al, al + pl) =~= pat);
        lemma_find_from_at(s, pat, 0, al);
        assert(s.skip(al + pl) =~= u.drop_first());
        assert(join(segs.skip(m + 1), q) == u);
    } else {
        // The quote after the first piece does not open the key.
        assert(!is_key_at(segs, field, 1));
        assert(!occurs_at(s, pat, al)) by {
            if occurs_at(s, pat, al) {
                let w = s.subrange(al, al + pl);
                assert(w == pat);
                let n1: int = segs[1].len() as int;
                assert forall|i: int| 0 <= i < field.len() implies s[al + 1 + i] == field[i] by {
                    assert(w[1 + i] == pat[1 + i]);
                }
                assert(s[al + 1 + fl] == '"') by {
                    assert(w[1 + fl] == pat[1 + fl]);
                }
                assert(s[al + 2 + fl] == ':') by {
                    assert(w[2 + fl] == pat[2 + fl]);
                }
                if n1 > field.len() {
                    assert(s[al + 1 + fl] == segs[1][fl]);
                } else if n1 < field.len() {
                    assert(s[al + 1 + n1] == '"');
                    assert(field[n1 as int] == s[al + 1 + n1]);
                } else {
                    assert(segs[1] =~= field) by {
                        assert forall|i: int| 0 <= i < n1 implies segs[1][i] == field[i] by {
                            assert(s[al + 1 + i] == segs[1][i]);
                        }
                    }
                    assert(s[al + 2 + fl] == u[0]);
                    if segs[2].len() > 0 {
                        assert(u.take(segs[2].len() as int)[0] == u[0]);
                        assert(segs[2].take(1) =~= seq![':']);
                    } else {
                        assert(segs.skip(2).len() >= 2);
                        assert(u[0] == '"');
                    }
                }
            }
        }
        assert(s == (a + q) + t) by {
            assert(s =~= (a + q) + t);
        }
        assert forall|j: int| 0 <= j < (a + q).len() implies !occurs_at(s, pat, j) by {
            if j < a.len() {
            }
        }
        lemma_find_skip_start(s, pat, (a + q).len() as int);
        lemma_find_shift(a + q, t, pat);
        // The same search, one piece further on.
        assert forall|k: int| 0 <= k <= m - 1 implies quote_free(#[trigger] rest[k]) by {
            assert(rest[k] == segs[k + 1]);
        }
        assert(is_key_at(rest, field, m - 1)) by {
            assert(rest[m - 1] == segs[m]);
            assert(rest[m] == segs[m + 1]);
        }
        assert forall|k: int| 1 <= k < m - 1 implies !is_key_at(rest, field, k) by {
            assert(!is_key_at(segs, field, k + 1));
            assert(rest[k] == segs[k + 1]);
            assert(rest[k + 1] == segs[k + 2]);
        }
        lemma_find_key(rest, field, m - 1);
        let p2 = find(t, pat)->Some_0;
        lemma_find_from(t, pat, 0);
        assert(s.skip(al + 1 + p2 + pl) =~= t.skip(p2 + pl));
        assert(rest.skip(m) =~= segs.skip(m + 1));
    }
}

/// The string value stored under `field`: the text between the quotes that
/// follow the first `"field":`, or nothing where that key is missing, where
/// `null` or anything but a quote follows it, or where no closing quote
/// comes.
pub open spec fn extract_field(input: Seq<char>, field: Seq<char>) -> Option<Seq<char>> {
    match find(input, field_key(field)) {
        None => None,
        Some(p) => {
            let rest = trim_start(input.skip(p + field_key(field).len()));
            if starts_with(rest, "null"@) {
                None
            } else if !starts_with(rest, seq!['"']) {
                None
            } else {
                let inner = rest.drop_first();
                match find(inner, seq!['"']) {
                    None => None,
                    Some(e) => Some(inner.take(e)),
                }
            }
        }
    }
}

/// A stored value: the key at piece `m`, then `: `, then the value as piece
/// `m + 2` between two quotes; the value is read back.
pub proof fn lemma_extract_quoted(segs: Seq<Seq<char>>, field: Seq<char>, m: int)
    requires
        forall|k: int| 0 <= k <= m + 2 ==> quote_free(#[trigger] segs[k]),
        quote_free(field),
        is_key_at(segs, field, m),
        forall|k: int| 1 <= k < m ==> !is_key_at(segs, field, k),
        segs[m + 1] == seq![':', ' '],
        m + 3 < segs.len(),
    ensures
        extract_field(join(segs, seq!['"']), field) == Some(segs[m + 2]),
{
    let q = seq!['"'];
    lemma_find_key(segs, field, m);
    let v = segs[m + 2];
    lemma_skip_unfold(segs, m + 1);
    lemma_skip_unfold(segs, m + 2);
    lemma_join_unfold(segs.skip(m + 1), q);
    lemma_join_unfold(segs.skip(m + 2), q);
    let w = join(segs.skip(m + 3), q);
    let after = join(segs.skip(m + 1), q).drop_first();
    assert(after =~= seq![' '] + q + v + q + w);
    assert(is_white_space(' '));
    assert(after.drop_first() =~= q + v + q + w);
    assert(!is_white_space('"'));
    assert(after.drop_first()[0] == '"');
    lemma_trim_start_stops(after.drop_first());
    let rest = trim_start(after);
    assert(rest == trim_start(after.drop_first()));
    assert(rest == q + v + q + w);
    reveal_strlit("null");
    assert(!starts_with(rest, "null"@)) by {
        assert("null"@[0] == 'n');
        if rest.len() >= 4 {
            assert(rest.take(4)[0] == rest[0]);
        }
    }
    assert(rest.take(1) =~= q);
    let inner = rest.drop_first();
    assert(inner =~= v + q + w);
    assert(quote_free(v));
    lemma_find_char(inner, '"', v.len() as int);
    assert(inner.take(v.len() as int) =~= v);
}

/// A missing value: the key at piece `m`, then `: null`; nothing is read.
pub proof fn lemma_extract_null(segs: Seq<Seq<char>>, field: Seq<char>, m: int, tail: Seq<char>)
    requires
        forall|k: int| 0 <= k <= m + 1 ==> quote_free(#[trigger] segs[k]),
        quote_free(field),
        is_key_at(segs, field, m),
        forall|k: int| 1 <= k < m ==> !is_key_at(segs, field, k),
        segs[m + 1] == seq![':', ' ', 'n', 'u', 'l', 'l'] + tail,
    ensures
        extract_field(join(segs, seq!['"']), field) is None,
{
    let q = seq!['"'];
    lemma_find_key(segs, field, m);
    let after = join(segs.skip(m + 1), q).drop_first();
    lemma_skip_unfold(segs, m + 1);
    lemma_join_starts(segs.skip(m + 1), q);
    let head = segs[m + 1];
    assert(after.take(5) =~= seq![' ', 'n', 'u', 'l', 'l']) by {
        assert(join(segs.skip(m + 1), q).take(head.len() as int) == head);
        assert forall|i: int| 0 <= i < 5 implies after[i] == head[i + 1] by {
            assert(join(segs.skip(m + 1), q).take(head.len() as int)[i + 1] == head[i + 1]);
        }
    }
    assert(is_white_space(' '));
    assert(!is_white_space('n'));
    assert(after.drop_first()[0] == 'n');
    lemma_trim_start_stops(after.drop_first());
    assert(trim_start(after) == trim_start(after.drop_first()));
    assert(trim_start(after) == after.drop_first());
    reveal_strlit("null");
    assert(after.drop_first().take(4) =~= "null"@) by {
        assert forall|i: int| 0 <= i < 4 implies after.drop_first()[i] == after.take(5)[i + 1] by {}
    }
}

/// `pat` occurs somewhere in `s`.
pub open spec fn contains_text(s: Seq<char>, pat: Seq<char>) -> bool {
    exists|i: int| occurs_at(s, pat, i)
}

/// What occurs in `y` occurs in `x + y + z`, shifted by the length of `x`.
pub proof fn lemma_occurs_within(x: Seq<char>, y: Seq<char>, z: Seq<char>, pat: Seq<char>, i: int)
    requires
        occurs_at(y, pat, i),
    ensures
        occurs_at(x + y + z, pat, x.len() + i),
{
    let s = x + y + z;
    assert(s.subrange(x.len() + i, x.len() + i + pat.len()) =~= y.subrange(i, i + pat.len()));
}

/// What occurs in one of the parts occurs in the parts joined.
pub proof fn lemma_join_contains(parts: Seq<Seq<char>>, sep: Seq<char>, k: int, pat: Seq<char>)
    requires
        0 <= k < parts.len(),
        contains_text(parts[k], pat),
    ensures
        contains_text(join(parts, sep), pat),
    decreases k,
{
    let i = choose|i: int| occurs_at(parts[k], pat, i);
    if parts.len() == 1 {
        assert(join(parts, sep) == parts[0]);
    } else if k == 0 {
        lemma_join_unfold(parts, sep);
        lemma_occurs_within(Seq::empty(), parts[0], sep + join(parts.drop_first(), sep), pat, i);
        assert(Seq::<char>::empty() + parts[0] + (sep + join(parts.drop_first(), sep))
            =~= join(parts, sep));
    } else {
        lemma_join_unfold(parts, sep);
        assert(parts.drop_first()[k - 1] == parts[k]);
        lemma_join_contains(parts.drop_first(), sep, k - 1, pat);
        let rest = join(parts.drop_first(), sep);
        let j = choose|j: int| occurs_at(rest, pat, j);
        lemma_occurs_within(parts[0] + sep, rest, Seq::empty(), pat, j);
        assert(parts[0] + sep + rest + Seq::<char>::empty() =~= join(parts, sep));
    }
}

/// `s` holds no `c`.
pub open spec fn avoids(s: Seq<char>, c: char) -> bool {
    forall|i: int| 0 <= i < s.len() ==> s[i] != c
}

/// Every character of `s` is white space.
pub open spec fn all_white_space(s: Seq<char>) -> bool {
    forall|i: int| 0 <= i < s.len() ==> is_white_space(#[trigger] s[i])
}

/// A string without `c` is one piece when split at `c`.
pub proof fn lemma_split_avoiding(s: Seq<char>, c: char)
    requires
        avoids(s, c),
    ensures
        split_char(s, c) == seq![s],
    decreases s.len(),
{
    if s.len() > 0 {
        lemma_split_avoiding(s.drop_first(), c);
        assert(seq![s[0]] + s.drop_first() =~= s);
        assert(split_char(s, c) =~= seq![s]);
    } else {
        assert(s =~= Seq::<char>::empty());
    }
}

/// Splitting at the first `c`: the text before it is the first piece.
pub proof fn lemma_split_head(x: Seq<char>, y: Seq<char>, c: char)
    requires
        avoids(x, c),
    ensures
        split_char(x + seq![c] + y, c) == seq![x] + split_char(y, c),
    decreases x.len(),
{
    let s = x + seq![c] + y;
    if x.len() == 0 {
        assert(s.drop_first() =~= y);
        assert(x =~= Seq::<char>::empty());
    } else {
        lemma_split_head(x.drop_first(), y, c);
        assert(s.drop_first() =~= x.drop_first() + seq![c] + y);
        lemma_split_char_len(y, c);
        assert(split_char(s, c) =~= seq![x] + split_char(y, c)) by {
            assert(seq![x[0]] + x.drop_first() =~= x);
        }
    }
}

/// White space in front of a string that starts with something else is
/// what `trim_start` removes.
pub proof fn lemma_trim_start_prefix(pre: Seq<char>, s: Seq<char>)
    requires
        all_white_space(pre),
        s.len() > 0,
        !is_white_space(s[0]),
    ensures
        trim_start(pre + s) == s,
    decreases pre.len(),
{
    if pre.len() == 0 {
        assert(pre + s =~= s);
    } else {
        assert((pre + s).drop_first() =~= pre.drop_first() + s);
        assert(is_white_space(pre[0]));
        lemma_trim_start_prefix(pre.drop_first(), s);
    }
}

/// `trim_end` of a string that ends with a non-white-space character.
pub proof fn lemma_trim_end_stops(s: Seq<char>)
    requires
        s.len() > 0,
        !is_white_space(s.last()),
    ensures
        trim_end(s) == s,
{
}

/// Removing the surrounding quotes of a quoted quote-free string.
pub proof fn lemma_trim_char_quoted(a: Seq<char>)
    requires
        quote_free(a),
    ensures
        trim_char(quoted(a), '"') == a,
{
    lemma_escape_quote_free(a);
    let s = quoted(a);
    assert(s.drop_first() =~= a + seq!['"']);
    assert(s[0] == '"');
    assert(trim_start_char(s, '"') == trim_start_char(s.drop_first(), '"'));
    if a.len() == 0 {
        assert((a + seq!['"']).drop_first() =~= Seq::<char>::empty());
        assert(trim_start_char(a + seq!['"'], '"') == trim_start_char(Seq::<char>::empty(), '"'));
        assert(trim_start_char(s, '"') =~= Seq::<char>::empty());
        assert(a =~= Seq::<char>::empty());
    } else {
        assert((a + seq!['"'])[0] == a[0]);
        assert(trim_start_char(a + seq!['"'], '"') == a + seq!['"']);
        assert(trim_start_char(s, '"') == a + seq!['"']);
        assert((a + seq!['"']).drop_last() =~= a);
        assert(a.last() != '"');
        assert(trim_end_char(a + seq!['"'], '"') == trim_end_char(a, '"'));
    }
}

/// A join of parts without `c`, with a separator without `c`, has no `c`.
pub proof fn lemma_join_avoids(parts: Seq<Seq<char>>, sep: Seq<char>, c: char)
    requires
        forall|k: int| 0 <= k < parts.len() ==> avoids(#[trigger] parts[k], c),
        avoids(sep, c),
    ensures
        avoids(join(parts, sep), c),
    decreases parts.len(),
{
    if parts.len() >= 2 {
        lemma_join_avoids(parts.drop_first(), sep, c);
        assert(avoids(parts[0], c));
        let j = join(parts, sep);
        assert forall|i: int| 0 <= i < j.len() implies j[i] != c by {
            let a = parts[0];
            if i < a.len() {
                assert(j[i] == a[i]);
            } else if i < a.len() + sep.len() {
                assert(j[i] == sep[i - a.len()]);
            } else {
                assert(j[i] == join(parts.drop_first(), sep)[i - a.len() - sep.len()]);
            }
        }
    } else if parts.len() == 1 {
        assert(avoids(parts[0], c));
    }
}

/// A quoted string avoids whatever its content avoids, other than `"`.
pub proof fn lemma_quoted_avoids(a: Seq<char>, c: char)
    requires
        quote_free(a),
        avoids(a, c),
        c != '"',
    ensures
        avoids(quoted(a), c),
{
    lemma_escape_quote_free(a);
}

/// The stored form of an optional string avoids what its content and the
/// word `null` avoid.
pub proof fn lemma_optional_avoids(v: Option<Seq<char>>, c: char)
    requires
        v matches Some(a) ==> quote_free(a) && avoids(a, c),
        c != '"',
        c != 'n' && c != 'u' && c != 'l',
    ensures
        avoids(optional_json(v), c),
{
    reveal_strlit("null");
    if let Some(a) = v {
        lemma_quoted_avoids(a, c);
    }
}

/// What a text cut at its quotes into an optional value's pieces joins to.
pub proof fn lemma_optional_pieces(v: Option<Seq<char>>, after: Seq<char>)
    requires
        v matches Some(s) ==> quote_free(s),
        quote_free(after),
    ensures
        seq!['"'] + join(optional_pieces(v, after), seq!['"']) == "\": "@ + optional_json(v)
            + after,
        forall|k: int|
            0 <= k < optional_pieces(v, after).len() ==> quote_free(
                #[trigger] optional_pieces(v, after)[k],
            ),
{
    reveal_strlit("\": ");
    reveal_strlit(": ");
    reveal_strlit(": null");
    reveal_strlit("null");
    match v {
        Some(s) => {
            lemma_escape_quote_free(s);
            reveal_with_fuel(join, 4);
            assert(seq!['"'] + join(optional_pieces(v, after), seq!['"']) =~= "\": "@
                + optional_json(v) + after);
        },
        None => {
            assert(seq!['"'] + join(optional_pieces(v, after), seq!['"']) =~= "\": "@
                + optional_json(v) + after);
        },
    }
}

/// A piece that is not followed by a piece starting with `:` is no key.
pub proof fn lemma_not_key(segs: Seq<Seq<char>>, field: Seq<char>, k: int)
    requires
        0 <= k,
        k + 1 < segs.len() ==> segs[k] != field || (segs[k + 1].len() > 0 && segs[k + 1][0]
            != ':'),
    ensures
        !is_key_at(segs, field, k),
{
    if is_key_at(segs, field, k) {
        assert(segs[k + 1].take(1)[0] == segs[k + 1][0]);
    }
}

// ---------------------------------------------------------------------------
// Executable primitives
// ---------------------------------------------------------------------------

/// Appends one character to a `String` by calling `String::push`; its
/// contract, taken on trust, is that the text afterwards is the text before
/// with `c` added at the end, as `String::push` documents.
#[verifier::external_body]
fn push_char(s: &mut String, c: char)
    ensures
        final(s)@ == old(s)@.push(c),
{
    s.push(c);
}

/// The characters of `s`.
pub fn chars_of(s: &str) -> (v: Vec<char>)
    ensures
        v@ == s@,
{
    let mut v: Vec<char> = Vec::new();
    for c in it: s.chars()
        invariant
            v@ == it.seq().take(it.index() as int),
    {
        v.push(c);
    }
    v
}

/// A `String` holding the characters of `v`.
pub fn string_of(v: &Vec<char>) -> (s: String)
    ensures
        s@ == v@,
{
    let mut s = String::new();
    let mut i: usize = 0;
    while i < v.len()
        invariant
            i <= v.len(),
            s@ == v@.take(i as int),
        decreases v.len() - i,
    {
        push_char(&mut s, v[i]);
        assert(v@.take(i as int).push(v@[i as int]) =~= v@.take(i + 1));
        i = i + 1;
    }
    assert(v@.take(v.len() as int) =~= v@);
    s
}

/// Appends the characters of `s` to `out`.
pub fn push_str(out: &mut Vec<char>, s: &str)
    ensures
        final(out)@ == old(out)@ + s@,
{
    let cs = chars_of(s);
    push_all(out, &cs);
}

/// Appends `v` to `out`.
pub fn push_all(out: &mut Vec<char>, v: &Vec<char>)
    ensures
        final(out)@ == old(out)@ + v@,
{
    let ghost start = out@;
    let mut i: usize = 0;
    while i < v.len()
        invariant
            i <= v.len(),
            out@ == start + v@.take(i as int),
        decreases v.len() - i,
    {
        out.push(v[i]);
        assert(start + v@.take(i as int) + seq![v@[i as int]] =~= start + v@.take(i + 1));
        i = i + 1;
    }
    assert(v@.take(v.len() as int) =~= v@);
}

/// The characters `v[from..to]`.
pub fn sub_chars(v: &Vec<char>, from: usize, to: usize) -> (r: Vec<char>)
    requires
        from <= to <= v.len(),
    ensures
        r@ == v@.subrange(from as int, to as int),
{
    let mut r: Vec<char> = Vec::new();
    let mut i: usize = from;
    while i < to
        invariant
            from <= i <= to <= v.len(),
            r@ == v@.subrange(from as int, i as int),
        decreases to - i,
    {
        r.push(v[i]);
        assert(v@.subrange(from as int, i as int).push(v@[i as int]) =~= v@.subrange(
            from as int,
            i + 1,
        ));
        i = i + 1;
    }
    r
}

/// `pat` occurs in `s` at `i`.
fn matches_at(s: &Vec<char>, pat: &Vec<char>, i: usize) -> (b: bool)
    requires
        i + pat.len() <= s.len(),
    ensures
        b == occurs_at(s@, pat@, i as int),
{
    let mut k: usize = 0;
    while k < pat.len()
        invariant
            k <= pat.len(),
            i + pat.len() <= s.len(),
            forall|j: int| 0 <= j < k ==> s@[i + j] == pat@[j],
        decreases pat.len() - k,
    {
        if s[i + k] != pat[k] {
            assert(s@.subrange(i as int, i + pat.len())[k as int] != pat@[k as int]);
            return false;
        }
        k = k + 1;
    }
    assert(s@.subrange(i as int, i + pat.len()) =~= pat@);
    true
}

/// The index of the first occurrence of `pat` in `s` (`str::find`).
pub fn find_chars(s: &Vec<char>, pat: &Vec<char>) -> (r: Option<usize>)
    ensures
        r matches Some(k) ==> find(s@, pat@) == Some(k as int),
        r is None ==> find(s@, pat@) is None,
{
    if pat.len() > s.len() {
        proof {
            lemma_find_from_none(s@, pat@, 0);
        }
        return None;
    }
    if pat.len() == 0 {
        proof {
            assert(s@.subrange(0, 0) =~= pat@);
            lemma_find_from_at(s@, pat@, 0, 0);
        }
        return Some(0);
    }
    let last = s.len() - pat.len();
    let mut i: usize = 0;
    while i <= last
        invariant
            last + pat.len() == s.len(),
            pat.len() > 0,
            i <= last + 1,
            forall|j: int| 0 <= j < i ==> !occurs_at(s@, pat@, j),
        decreases last + 1 - i,
    {
        if matches_at(s, pat, i) {
            proof {
                lemma_find_from_at(s@, pat@, 0, i as int);
            }
            return Some(i);
        }
        i = i + 1;
    }
    proof {
        lemma_find_from_none(s@, pat@, 0);
    }
    None
}

pub fn extract_string_field(input: &str, field: &str) -> (r: Option<String>)
    ensures
        r.deep_view() == extract_field(input@, field@),
{
    let text = chars_of(input);
    let mut key: Vec<char> = Vec::new();
    key.push('"');
    push_str(&mut key, field);
    key.push('"');
    key.push(':');
    assert(key@ =~= field_key(field@));
    match find_chars(&text, &key) {
        None => None,
        Some(p) => {
            proof {
                lemma_find_from(text@, key@, 0);
                assert(occurs_at(text@, key@, p as int));
                assert(p + key@.len() <= text@.len());
            }
            let after = sub_chars(&text, p + key.len(), text.len());
            assert(after@ =~= input@.skip(p + field_key(field@).len()));
            let rest = trim_start_chars(&after);
            let null = chars_of("null");
            if starts_with_chars(&rest, &null) {
                return None;
            }
            if rest.len() == 0 || rest[0] != '"' {
                assert(!starts_with(rest@, seq!['"'])) by {
                    if rest@.len() > 0 {
                        assert(rest@.take(1)[0] == rest@[0]);
                    }
                }
                return None;
            }
            assert(rest@.take(1) =~= seq!['"']);
            let inner = sub_chars(&rest, 1, rest.len());
            assert(inner@ =~= rest@.drop_first());
            match find_char(&inner, '"') {
                None => None,
                Some(e) => {
                    proof {
                        lemma_find_from(inner@, seq!['"'], 0);
                    }
                    let v = sub_chars(&inner, 0, e);
                    assert(v@ =~= inner@.take(e as int));
                    Some(string_of(&v))
                },
            }
        },
    }
}

/// The index of the first `c` in `s`.
pub fn find_char(s: &Vec<char>, c: char) -> (r: Option<usize>)
    ensures
        r matches Some(k) ==> find(s@, seq![c]) == Some(k as int),
        r is None ==> find(s@, seq![c]) is None,
{
    let mut pat: Vec<char> = Vec::new();
    pat.push(c);
    assert(pat@ =~= seq![c]);
    find_chars(s, &pat)
}

/// `s` begins with `p`.
pub fn starts_with_chars(s: &Vec<char>, p: &Vec<char>) -> (b: bool)
    ensures
        b == starts_with(s@, p@),
{
    if p.len() > s.len() {
        return false;
    }
    let r = matches_at(s, p, 0);
    assert(s@.subrange(0, p.len() as int) =~= s@.take(p.len() as int));
    r
}

/// `char::is_whitespace`.
pub fn is_whitespace_char(c: char) -> (b: bool)
    ensures
        b == is_white_space(c),
{
    let n = c as u32;
    (0x09 <= n && n <= 0x0D) || n == 0x20 || n == 0x85 || n == 0xA0 || n == 0x1680 || (0x2000
        <= n && n <= 0x200A) || n == 0x2028 || n == 0x2029 || n == 0x202F || n == 0x205F || n
        == 0x3000
}

/// `str::trim_start`.
pub fn trim_start_chars(s: &Vec<char>) -> (r: Vec<char>)
    ensures
        r@ == trim_start(s@),
{
    let mut i: usize = 0;
    assert(s@.skip(0) =~= s@);
    while i < s.len() && is_whitespace_char(s[i])
        invariant
            i <= s.len(),
            trim_start(s@.skip(i as int)) == trim_start(s@),
        decreases s.len() - i,
    {
        assert(s@.skip(i as int).drop_first() =~= s@.skip(i + 1));
        i = i + 1;
    }
    sub_chars(s, i, s.len())
}

/// `str::trim_end`.
pub fn trim_end_chars(s: &Vec<char>) -> (r: Vec<char>)
    ensures
        r@ == trim_end(s@),
{
    let mut n: usize = s.len();
    assert(s@.take(n as int) =~= s@);
    while n > 0 && is_whitespace_char(s[n - 1])
        invariant
            n <= s.len(),
            trim_end(s@.take(n as int)) == trim_end(s@),
        decreases n,
    {
        assert(s@.take(n as int).drop_last() =~= s@.take(n - 1));
        n = n - 1;
    }
    assert(s@.subrange(0, n as int) =~= s@.take(n as int));
    sub_chars(s, 0, n)
}

/// `str::trim`.
pub fn trim_chars(s: &Vec<char>) -> (r: Vec<char>)
    ensures
        r@ == trim(s@),
{
    let t = trim_start_chars(s);
    trim_end_chars(&t)
}

/// `str::trim_matches(c)` for a single character `c`.
pub fn trim_char_chars(s: &Vec<char>, c: char) -> (r: Vec<char>)
    ensures
        r@ == trim_char(s@, c),
{
    let mut i: usize = 0;
    assert(s@.skip(0) =~= s@);
    while i < s.len() && s[i] == c
        invariant
            i <= s.len(),
            trim_start_char(s@.skip(i as int), c) == trim_start_char(s@, c),
        decreases s.len() - i,
    {
        assert(s@.skip(i as int).drop_first() =~= s@.skip(i + 1));
        i = i + 1;
    }
    let t = sub_chars(s, i, s.len());
    assert(t@ =~= s@.skip(i as int));
    let mut n: usize = t.len();
    assert(t@.take(n as int) =~= t@);
    while n > 0 && t[n - 1] == c
        invariant
            n <= t.len(),
            trim_end_char(t@.take(n as int), c) == trim_end_char(t@, c),
        decreases n,
    {
        assert(t@.take(n as int).drop_last() =~= t@.take(n - 1));
        n = n - 1;
    }
    assert(t@.subrange(0, n as int) =~= t@.take(n as int));
    sub_chars(&t, 0, n)
}

/// `str::split(c)`: the pieces between the copies of `c`.
pub fn split_char_chars(s: &Vec<char>, c: char) -> (r: Vec<Vec<char>>)
    ensures
        r.deep_view() == split_char(s@, c),
{
    let mut done: Vec<Vec<char>> = Vec::new();
    let mut cur: Vec<char> = Vec::new();
    let mut i: usize = 0;
    proof {
        lemma_split_char_len(s@, c);
        assert(s@.skip(0) =~= s@);
        assert(split_char(s@, c) =~~= done.deep_view() + seq![
            cur@ + split_char(s@.skip(0), c)[0],
        ] + split_char(s@.skip(0), c).drop_first());
    }
    while i < s.len()
        invariant
            i <= s.len(),
            split_char(s@, c) == done.deep_view() + seq![
                cur@ + split_char(s@.skip(i as int), c)[0],
            ] + split_char(s@.skip(i as int), c).drop_first(),
        decreases s.len() - i,
    {
        let ghost rest = s@.skip(i as int);
        let ghost tail = split_char(s@.skip(i + 1), c);
        proof {
            assert(rest.drop_first() =~= s@.skip(i + 1));
            assert(rest[0] == s@[i as int]);
            lemma_split_char_len(s@.skip(i + 1), c);
        }
        if s[i] == c {
            let ghost old_done = done.deep_view();
            let ghost old_cur = cur@;
            let finished = cur;
            done.push(finished);
            cur = Vec::new();
            proof {
                assert(done.deep_view() =~~= old_done.push(old_cur));
                assert(split_char(rest, c) == seq![Seq::<char>::empty()] + tail);
                assert(split_char(s@, c) =~~= done.deep_view() + seq![cur@ + tail[0]]
                    + tail.drop_first());
            }
        } else {
            let ghost old_cur = cur@;
            cur.push(s[i]);
            proof {
                assert(split_char(rest, c) == tail.update(0, seq![s@[i as int]] + tail[0]));
                assert(split_char(s@, c) =~~= done.deep_view() + seq![cur@ + tail[0]]
                    + tail.drop_first());
            }
        }
        i = i + 1;
    }
    let ghost old_done = done.deep_view();
    let ghost old_cur = cur@;
    proof {
        assert(s@.skip(s.len() as int) =~= Seq::<char>::empty());
    }
    done.push(cur);
    proof {
        assert(done.deep_view() =~~= old_done.push(old_cur));
        assert(split_char(s@, c) =~~= done.deep_view());
    }
    done
}

/// `str::replace('"', "\\\"")`, appended to `out`.
pub fn push_escaped(out: &mut Vec<char>, s: &str)
    ensures
        final(out)@ == old(out)@ + escape_quotes(s@),
{
    let cs = chars_of(s);
    let ghost start = out@;
    let mut i: usize = 0;
    while i < cs.len()
        invariant
            i <= cs.len(),
            out@ == start + escape_quotes(cs@.take(i as int)),
        decreases cs.len() - i,
    {
        proof {
            lemma_escape_push(cs@.take(i as int), cs@[i as int]);
            assert(cs@.take(i as int).push(cs@[i as int]) =~= cs@.take(i + 1));
        }
        if cs[i] == '"' {
            out.push('\\');
            out.push('"');
        } else {
            out.push(cs[i]);
        }
        assert(out@ =~= start + escape_quotes(cs@.take(i + 1)));
        i = i + 1;
    }
    assert(cs@.take(cs.len() as int) =~= cs@);
}

/// `"` + the escaped `s` + `"`, appended to `out`.
pub fn push_quoted(out: &mut Vec<char>, s: &str)
    ensures
        final(out)@ == old(out)@ + quoted(s@),
{
    let ghost start = out@;
    out.push('"');
    push_escaped(out, s);
    out.push('"');
    assert(out@ =~= start + quoted(s@));
}

/// The stored form of an optional string, appended to `out`.
pub fn push_optional_json(out: &mut Vec<char>, v: &Option<String>)
    ensures
        final(out)@ == old(out)@ + optional_json(v.deep_view()),
{
    match v {
        Some(s) => push_quoted(out, s.as_str()),
        None => push_str(out, "null"),
    }
}

} // verus!
