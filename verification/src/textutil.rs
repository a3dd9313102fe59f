//! Text handling for history lines: whitespace trimming, splitting into
//! lines and into whitespace-separated tokens, duplicate removal, base-name
//! extraction and decimal formatting.
//!
//! The history store's raw output is a block of text; the adapter hands
//! each consumer trimmed, non-empty lines. Splitting is specified by one
//! recursive piece-splitting function, instantiated with the newline class
//! for lines and with the whitespace class for tokens.

use vstd::prelude::*;

verus! {

/// ASCII whitespace: the separators that occur in history output.
pub open spec fn is_space_char(c: char) -> bool {
    c == ' ' || c == '\t' || c == '\n' || c == '\r' || c == '\x0B' || c == '\x0C'
}

fn is_space(c: char) -> (r: bool)
    ensures
        r == is_space_char(c),
{
    c == ' ' || c == '\t' || c == '\n' || c == '\r' || c == '\x0B' || c == '\x0C'
}

/// `s` without its leading whitespace.
pub open spec fn trim_front(s: Seq<char>) -> Seq<char>
    decreases s.len(),
{
    if s.len() > 0 && is_space_char(s[0]) {
        trim_front(s.drop_first())
    } else {
        s
    }
}

/// `s` without its trailing whitespace.
pub open spec fn trim_back(s: Seq<char>) -> Seq<char>
    decreases s.len(),
{
    if s.len() > 0 && is_space_char(s.last()) {
        trim_back(s.drop_last())
    } else {
        s
    }
}

/// `s` without leading and trailing whitespace.
pub open spec fn trimmed(s: Seq<char>) -> Seq<char> {
    trim_back(trim_front(s))
}

/// Copy `s` without its surrounding whitespace.
pub fn trim_str(s: &str) -> (r: String)
    ensures
        r@ == trimmed(s@),
{
    let n = s.unicode_len();
    proof {
        assert(s@.subrange(0, n as int) =~= s@);
    }
    let mut i: usize = 0;
    while i < n && is_space(s.get_char(i))
        invariant
            n == s@.len(),
            0 <= i <= n,
            trim_front(s@) == trim_front(s@.subrange(i as int, n as int)),
        decreases n - i,
    {
        proof {
            let suf = s@.subrange(i as int, n as int);
            assert(suf[0] == s@[i as int]);
            assert(suf.drop_first() =~= s@.subrange(i + 1, n as int));
        }
        i += 1;
    }
    if i == n {
        proof {
            assert(s@.subrange(i as int, n as int) =~= Seq::<char>::empty());
            assert(trim_front(s@) =~= Seq::<char>::empty());
            assert(trim_back(Seq::<char>::empty()) =~= Seq::<char>::empty());
        }
        return String::new();
    }
    proof {
        let suf = s@.subrange(i as int, n as int);
        assert(suf[0] == s@[i as int]);
        assert(trim_front(s@) == suf);
    }
    let mut j: usize = n;
    while j > i && is_space(s.get_char(j - 1))
        invariant
            n == s@.len(),
            0 <= i < j <= n,
            i < n,
            !is_space_char(s@[i as int]),
            trim_front(s@) == s@.subrange(i as int, n as int),
            trim_back(s@.subrange(i as int, n as int)) == trim_back(
                s@.subrange(i as int, j as int),
            ),
        decreases j,
    {
        proof {
            let cur = s@.subrange(i as int, j as int);
            assert(cur.last() == s@[j - 1]);
            assert(cur.drop_last() =~= s@.subrange(i as int, j - 1));
        }
        j -= 1;
    }
    proof {
        let cur = s@.subrange(i as int, j as int);
        assert(j > i);
        assert(cur.last() == s@[j - 1]);
        assert(trim_back(cur) == cur);
    }
    s.substring_char(i, j).to_owned()
}

/// Split `s` at every character of class `sep`, keeping empty pieces: a
/// text of `k` separators yields `k + 1` pieces.
pub open spec fn pieces_split(s: Seq<char>, sep: spec_fn(char) -> bool) -> Seq<Seq<char>>
    decreases s.len(),
{
    if s.len() == 0 {
        seq![Seq::<char>::empty()]
    } else if sep(s[0]) {
        seq![Seq::<char>::empty()] + pieces_split(s.drop_first(), sep)
    } else {
        let rest = pieces_split(s.drop_first(), sep);
        seq![seq![s[0]] + rest[0]] + rest.drop_first()
    }
}

proof fn lemma_pieces_split_len(s: Seq<char>, sep: spec_fn(char) -> bool)
    ensures
        pieces_split(s, sep).len() >= 1,
    decreases s.len(),
{
    if s.len() > 0 {
        lemma_pieces_split_len(s.drop_first(), sep);
    }
}

/// Up to the first separator (at `m`), the split is the prefix piece
/// followed by the split of what comes after the separator.
proof fn lemma_pieces_split_step(s: Seq<char>, sep: spec_fn(char) -> bool, m: int)
    requires
        0 <= m < s.len(),
        sep(s[m]),
        forall|k: int| 0 <= k < m ==> !sep(s[k]),
    ensures
        pieces_split(s, sep) == seq![s.subrange(0, m)] + pieces_split(
            s.subrange(m + 1, s.len() as int),
            sep,
        ),
    decreases m,
{
    lemma_pieces_split_len(s.drop_first(), sep);
    if m == 0 {
        assert(s.drop_first() =~= s.subrange(1, s.len() as int));
        assert(s.subrange(0, 0) =~= Seq::<char>::empty());
        assert(pieces_split(s, sep) =~= seq![s.subrange(0, 0)] + pieces_split(
            s.subrange(1, s.len() as int),
            sep,
        ));
    } else {
        let t = s.drop_first();
        assert(t[m - 1] == s[m]);
        assert forall|k: int| 0 <= k < m - 1 implies !sep(#[trigger] t[k]) by {
            assert(t[k] == s[k + 1]);
        }
        lemma_pieces_split_step(t, sep, m - 1);
        assert(t.subrange(0, m - 1) =~= s.subrange(1, m));
        assert(t.subrange(m, t.len() as int) =~= s.subrange(m + 1, s.len() as int));
        let rest = pieces_split(t, sep);
        assert(rest == seq![s.subrange(1, m)] + pieces_split(
            s.subrange(m + 1, s.len() as int),
            sep,
        ));
        assert(rest[0] == s.subrange(1, m));
        assert(seq![s[0]] + rest[0] =~= s.subrange(0, m));
        assert(rest.drop_first() =~= pieces_split(s.subrange(m + 1, s.len() as int), sep));
        assert(pieces_split(s, sep) =~= seq![s.subrange(0, m)] + pieces_split(
            s.subrange(m + 1, s.len() as int),
            sep,
        ));
    }
}

/// A text without separators is one piece.
proof fn lemma_pieces_split_whole(s: Seq<char>, sep: spec_fn(char) -> bool)
    requires
        forall|k: int| 0 <= k < s.len() ==> !sep(#[trigger] s[k]),
    ensures
        pieces_split(s, sep) == seq![s],
    decreases s.len(),
{
    if s.len() == 0 {
        assert(s =~= Seq::<char>::empty());
    } else {
        lemma_pieces_split_whole(s.drop_first(), sep);
        assert(pieces_split(s.drop_first(), sep)[0] == s.drop_first());
        assert(seq![s[0]] + s.drop_first() =~= s);
        assert(pieces_split(s, sep) =~= seq![s]);
    }
}

/// The newline class, the separator between history lines.
pub open spec fn newline_pred() -> spec_fn(char) -> bool {
    |c: char| c == '\n'
}

/// The whitespace class, the separator between a line's tokens.
pub open spec fn space_pred() -> spec_fn(char) -> bool {
    |c: char| is_space_char(c)
}

/// What the history adapter hands out for a block of raw query output:
/// each line trimmed, empty lines dropped, order kept.
pub open spec fn normalized_lines(s: Seq<char>) -> Seq<Seq<char>> {
    pieces_split(s, newline_pred()).map_values(|l: Seq<char>| trimmed(l)).filter(
        |l: Seq<char>| l.len() != 0,
    )
}

/// A line's whitespace-separated tokens.
pub open spec fn tokens_of(s: Seq<char>) -> Seq<Seq<char>> {
    pieces_split(s, space_pred()).filter(|t: Seq<char>| t.len() != 0)
}

/// The views of a run of strings.
pub open spec fn str_views(s: Seq<String>) -> Seq<Seq<char>> {
    s.map_values(|t: String| t@)
}

/// Turn a block of raw history output into trimmed, non-empty lines,
/// oldest text last, order kept.
pub fn normalize_lines(s: &str) -> (r: Vec<String>)
    ensures
        str_views(r@) == normalized_lines(s@),
{
    let ghost sep = newline_pred();
    let ghost ftrim = |l: Seq<char>| trimmed(l);
    let ghost ne = |l: Seq<char>| l.len() != 0;
    let n = s.unicode_len();
    let mut out: Vec<String> = Vec::new();
    let mut st: usize = 0;
    let mut i: usize = 0;
    let ghost done = Seq::<Seq<char>>::empty();
    let mut ghost_done = Ghost(done);
    proof {
        reveal(Seq::filter);
        assert(s@.subrange(0, n as int) =~= s@);
        assert(ghost_done@ + pieces_split(s@, sep) =~= pieces_split(s@, sep));
        assert(str_views(out@) =~= ghost_done@.map_values(ftrim).filter(ne));
    }
    while i < n
        invariant
            n == s@.len(),
            0 <= st <= i <= n,
            sep == newline_pred(),
            ftrim == (|l: Seq<char>| trimmed(l)),
            ne == (|l: Seq<char>| l.len() != 0),
            forall|k: int| st <= k < i ==> !sep(#[trigger] s@[k]),
            pieces_split(s@, sep) == ghost_done@ + pieces_split(
                s@.subrange(st as int, n as int),
                sep,
            ),
            str_views(out@) == ghost_done@.map_values(ftrim).filter(ne),
        decreases n - i,
    {
        let c = s.get_char(i);
        if c == '\n' {
            let piece = s.substring_char(st, i);
            let t = trim_str(piece);
            proof {
                reveal(Seq::filter);
                let suf = s@.subrange(st as int, n as int);
                let m = i - st;
                assert(suf[m as int] == s@[i as int]);
                assert forall|k: int| 0 <= k < m implies !sep(#[trigger] suf[k]) by {
                    assert(suf[k] == s@[st + k]);
                }
                lemma_pieces_split_step(suf, sep, m as int);
                let p = suf.subrange(0, m as int);
                assert(p =~= s@.subrange(st as int, i as int));
                assert(suf.subrange(m + 1, suf.len() as int) =~= s@.subrange(i + 1, n as int));
                let prev = ghost_done@;
                assert(pieces_split(s@, sep) =~= (prev.push(p)) + pieces_split(
                    s@.subrange(i + 1, n as int),
                    sep,
                ));
                let mf = prev.map_values(ftrim);
                assert((prev.push(p)).map_values(ftrim) =~= mf.push(ftrim(p)));
                assert(mf.push(ftrim(p)).drop_last() =~= mf);
                assert(mf.push(ftrim(p)).last() == ftrim(p));
                assert(mf.push(ftrim(p)).filter(ne) == if ne(ftrim(p)) {
                    mf.filter(ne).push(ftrim(p))
                } else {
                    mf.filter(ne)
                });
                assert(t@ == ftrim(p));
            }
            if !t.as_str().is_empty() {
                let ghost prevout = out@;
                out.push(t);
                proof {
                    assert(out@ =~= prevout.push(t));
                    assert(str_views(out@) =~= str_views(prevout).push(t@));
                }
            }
            proof {
                let p = s@.subrange(st as int, i as int);
                ghost_done@ = ghost_done@.push(p);
            }
            st = i + 1;
        }
        i += 1;
    }
    let piece = s.substring_char(st, n);
    let t = trim_str(piece);
    proof {
        reveal(Seq::filter);
        let suf = s@.subrange(st as int, n as int);
        assert forall|k: int| 0 <= k < suf.len() implies !sep(#[trigger] suf[k]) by {
            assert(suf[k] == s@[st + k]);
        }
        lemma_pieces_split_whole(suf, sep);
        let prev = ghost_done@;
        assert(pieces_split(s@, sep) =~= prev.push(suf));
        let mf = prev.map_values(ftrim);
        assert((prev.push(suf)).map_values(ftrim) =~= mf.push(ftrim(suf)));
        assert(mf.push(ftrim(suf)).drop_last() =~= mf);
        assert(mf.push(ftrim(suf)).last() == ftrim(suf));
        assert(mf.push(ftrim(suf)).filter(ne) == if ne(ftrim(suf)) {
            mf.filter(ne).push(ftrim(suf))
        } else {
            mf.filter(ne)
        });
        assert(t@ == ftrim(suf));
    }
    if !t.as_str().is_empty() {
        let ghost prevout = out@;
        out.push(t);
        proof {
            assert(out@ =~= prevout.push(t));
            assert(str_views(out@) =~= str_views(prevout).push(t@));
        }
    }
    out
}

/// A line's whitespace-separated tokens, left to right.
pub fn line_tokens(s: &str) -> (r: Vec<String>)
    ensures
        str_views(r@) == tokens_of(s@),
{
    let ghost sep = space_pred();
    let ghost ne = |l: Seq<char>| l.len() != 0;
    let n = s.unicode_len();
    let mut out: Vec<String> = Vec::new();
    let mut st: usize = 0;
    let mut i: usize = 0;
    let ghost done = Seq::<Seq<char>>::empty();
    let mut ghost_done = Ghost(done);
    proof {
        reveal(Seq::filter);
        assert(s@.subrange(0, n as int) =~= s@);
        assert(ghost_done@ + pieces_split(s@, sep) =~= pieces_split(s@, sep));
        assert(str_views(out@) =~= ghost_done@.filter(ne));
    }
    while i < n
        invariant
            n == s@.len(),
            0 <= st <= i <= n,
            sep == space_pred(),
            ne == (|l: Seq<char>| l.len() != 0),
            forall|k: int| st <= k < i ==> !sep(#[trigger] s@[k]),
            pieces_split(s@, sep) == ghost_done@ + pieces_split(
                s@.subrange(st as int, n as int),
                sep,
            ),
            str_views(out@) == ghost_done@.filter(ne),
        decreases n - i,
    {
        let c = s.get_char(i);
        if is_space(c) {
            proof {
                reveal(Seq::filter);
                let suf = s@.subrange(st as int, n as int);
                let m = i - st;
                assert(suf[m as int] == s@[i as int]);
                assert forall|k: int| 0 <= k < m implies !sep(#[trigger] suf[k]) by {
                    assert(suf[k] == s@[st + k]);
                }
                lemma_pieces_split_step(suf, sep, m as int);
                let p = suf.subrange(0, m as int);
                assert(p =~= s@.subrange(st as int, i as int));
                assert(suf.subrange(m + 1, suf.len() as int) =~= s@.subrange(i + 1, n as int));
                let prev = ghost_done@;
                assert(pieces_split(s@, sep) =~= (prev.push(p)) + pieces_split(
                    s@.subrange(i + 1, n as int),
                    sep,
                ));
                assert(prev.push(p).drop_last() =~= prev);
                assert(prev.push(p).last() == p);
                assert(prev.push(p).filter(ne) == if ne(p) {
                    prev.filter(ne).push(p)
                } else {
                    prev.filter(ne)
                });
            }
            if st < i {
                let piece = s.substring_char(st, i);
                let ghost prevout = out@;
                out.push(piece.to_owned());
                proof {
                    assert(out@ =~= prevout.push(out@.last()));
                    assert(str_views(out@) =~= str_views(prevout).push(s@.subrange(
                        st as int,
                        i as int,
                    )));
                }
            } else {
                proof {
                    assert(s@.subrange(st as int, i as int) =~= Seq::<char>::empty());
                }
            }
            proof {
                let p = s@.subrange(st as int, i as int);
                ghost_done@ = ghost_done@.push(p);
            }
            st = i + 1;
        }
        i += 1;
    }
    proof {
        reveal(Seq::filter);
        let suf = s@.subrange(st as int, n as int);
        assert forall|k: int| 0 <= k < suf.len() implies !sep(#[trigger] suf[k]) by {
            assert(suf[k] == s@[st + k]);
        }
        lemma_pieces_split_whole(suf, sep);
        let prev = ghost_done@;
        assert(pieces_split(s@, sep) =~= prev.push(suf));
        assert(prev.push(suf).drop_last() =~= prev);
        assert(prev.push(suf).last() == suf);
        assert(prev.push(suf).filter(ne) == if ne(suf) {
            prev.filter(ne).push(suf)
        } else {
            prev.filter(ne)
        });
    }
    if st < n {
        let piece = s.substring_char(st, n);
        let ghost prevout = out@;
        out.push(piece.to_owned());
        proof {
            assert(out@ =~= prevout.push(out@.last()));
            assert(str_views(out@) =~= str_views(prevout).push(s@.subrange(st as int, n as int)));
        }
    } else {
        proof {
            assert(s@.subrange(st as int, n as int) =~= Seq::<char>::empty());
        }
    }
    out
}

/// The distinct values of `s`, each at its first occurrence, order kept.
pub open spec fn dedup_of(s: Seq<Seq<char>>) -> Seq<Seq<char>>
    decreases s.len(),
{
    if s.len() == 0 {
        Seq::<Seq<char>>::empty()
    } else {
        let d = dedup_of(s.drop_last());
        if d.contains(s.last()) {
            d
        } else {
            d.push(s.last())
        }
    }
}

/// Drop repeated paths from an enumeration, keeping first occurrences in
/// order.
pub fn distinct_paths(lines: &Vec<String>) -> (r: Vec<String>)
    ensures
        str_views(r@) == dedup_of(str_views(lines@)),
{
    let mut out: Vec<String> = Vec::new();
    let mut i: usize = 0;
    proof {
        assert(str_views(lines@).take(0) =~= Seq::<Seq<char>>::empty());
        assert(str_views(out@) =~= dedup_of(str_views(lines@).take(0)));
    }
    while i < lines.len()
        invariant
            0 <= i <= lines@.len(),
            str_views(out@) == dedup_of(str_views(lines@).take(i as int)),
        decreases lines@.len() - i,
    {
        let mut found = false;
        let mut k: usize = 0;
        while k < out.len()
            invariant
                0 <= k <= out@.len(),
                0 <= i < lines@.len(),
                found == exists|t: int| 0 <= t < k && str_views(out@)[t] == lines@[i as int]@,
            decreases out@.len() - k,
        {
            if out[k] == lines[i] {
                proof {
                    assert(str_views(out@)[k as int] == lines@[i as int]@);
                }
                found = true;
            }
            k += 1;
        }
        let ghost pv = str_views(lines@).take(i as int);
        let ghost pv1 = str_views(lines@).take(i + 1);
        proof {
            assert(pv1.drop_last() =~= pv);
            assert(pv1.last() == lines@[i as int]@);
            if found {
                assert(dedup_of(pv).contains(lines@[i as int]@));
            } else {
                assert(!dedup_of(pv).contains(lines@[i as int]@)) by {
                    if dedup_of(pv).contains(lines@[i as int]@) {
                        let t = choose|t: int|
                            0 <= t < dedup_of(pv).len() && dedup_of(pv)[t] == lines@[i as int]@;
                        assert(str_views(out@)[t] == lines@[i as int]@);
                    }
                }
            }
        }
        if !found {
            let ghost prevout = out@;
            out.push(lines[i].clone());
            proof {
                assert(out@ =~= prevout.push(out@.last()));
                assert(out@.last()@ == lines@[i as int]@);
                assert(str_views(out@) =~= str_views(prevout).push(lines@[i as int]@));
            }
        }
        i += 1;
    }
    proof {
        assert(str_views(lines@).take(lines@.len() as int) =~= str_views(lines@));
    }
    out
}

/// The base file name: what follows the last path separator.
pub open spec fn base_name_of(p: Seq<char>) -> Seq<char>
    decreases p.len(),
{
    if p.len() == 0 {
        p
    } else if p.last() == '/' {
        Seq::<char>::empty()
    } else {
        base_name_of(p.drop_last()).push(p.last())
    }
}

/// Extract the base file name from a path.
pub fn base_name(p: &str) -> (r: String)
    ensures
        r@ == base_name_of(p@),
{
    let n = p.unicode_len();
    proof {
        assert(p@.take(n as int) =~= p@);
        assert(p@.subrange(n as int, n as int) =~= Seq::<char>::empty());
        assert(base_name_of(p@.take(n as int)) + p@.subrange(n as int, n as int) =~= base_name_of(
            p@,
        ));
    }
    let mut j: usize = n;
    while j > 0 && p.get_char(j - 1) != '/'
        invariant
            0 <= j <= n,
            n == p@.len(),
            base_name_of(p@) == base_name_of(p@.take(j as int)) + p@.subrange(j as int, n as int),
        decreases j,
    {
        proof {
            let cur = p@.take(j as int);
            assert(cur.last() == p@[j - 1]);
            assert(cur.drop_last() =~= p@.take(j - 1));
            assert(base_name_of(cur) == base_name_of(p@.take(j - 1)).push(p@[j - 1]));
            assert(base_name_of(p@.take(j - 1)).push(p@[j - 1]) + p@.subrange(j as int, n as int)
                =~= base_name_of(p@.take(j - 1)) + p@.subrange(j - 1, n as int));
        }
        j -= 1;
    }
    proof {
        if j == 0 {
            assert(p@.take(0) =~= Seq::<char>::empty());
            assert(base_name_of(Seq::<char>::empty()).len() == 0);
            assert(base_name_of(p@) =~= p@.subrange(0, n as int));
        } else {
            let cur = p@.take(j as int);
            assert(cur.last() == p@[j - 1]);
            assert(base_name_of(cur).len() == 0);
            assert(base_name_of(p@) =~= p@.subrange(j as int, n as int));
        }
    }
    p.substring_char(j, n).to_owned()
}

/// The decimal digit for a value below ten.
pub open spec fn dec_digit_char(d: int) -> char {
    if d == 0 {
        '0'
    } else if d == 1 {
        '1'
    } else if d == 2 {
        '2'
    } else if d == 3 {
        '3'
    } else if d == 4 {
        '4'
    } else if d == 5 {
        '5'
    } else if d == 6 {
        '6'
    } else if d == 7 {
        '7'
    } else if d == 8 {
        '8'
    } else {
        '9'
    }
}

/// The decimal rendering of a non-negative number, no sign, no leading
/// zero except for zero itself.
pub open spec fn dec_str_of(n: int) -> Seq<char>
    recommends
        n >= 0,
    decreases n,
{
    if n < 10 {
        seq![dec_digit_char(n)]
    } else {
        dec_str_of(n / 10).push(dec_digit_char(n % 10))
    }
}

fn dec_digit(d: u64) -> (r: &'static str)
    requires
        d < 10,
    ensures
        r@ == seq![dec_digit_char(d as int)],
{
    proof {
        reveal_strlit("0");
        reveal_strlit("1");
        reveal_strlit("2");
        reveal_strlit("3");
        reveal_strlit("4");
        reveal_strlit("5");
        reveal_strlit("6");
        reveal_strlit("7");
        reveal_strlit("8");
        reveal_strlit("9");
    }
    if d == 0 {
        "0"
    } else if d == 1 {
        "1"
    } else if d == 2 {
        "2"
    } else if d == 3 {
        "3"
    } else if d == 4 {
        "4"
    } else if d == 5 {
        "5"
    } else if d == 6 {
        "6"
    } else if d == 7 {
        "7"
    } else if d == 8 {
        "8"
    } else {
        "9"
    }
}

/// Render a number in decimal.
pub fn fmt_u64(x: u64) -> (r: String)
    ensures
        r@ == dec_str_of(x as int),
    decreases x,
{
    if x < 10 {
        dec_digit(x).to_owned()
    } else {
        let prefix = fmt_u64(x / 10);
        let r = prefix.concat(dec_digit(x % 10));
        proof {
            assert(dec_str_of((x / 10) as int).push(dec_digit_char((x % 10) as int)) =~= dec_str_of(
                (x / 10) as int,
            ) + seq![dec_digit_char((x % 10) as int)]);
        }
        r
    }
}

} // verus!
