//! Character-level text handling: the whitespace predicate, trimming, and
//! splitting a message into `|`-delimited fields.

use vstd::prelude::*;

verus! {

/// A character with the Unicode `White_Space` property — exactly the set of
/// characters that trimming removes.
pub open spec fn is_ws(c: char) -> bool {
    ||| c == '\u{9}'
    ||| c == '\u{A}'
    ||| c == '\u{B}'
    ||| c == '\u{C}'
    ||| c == '\u{D}'
    ||| c == ' '
    ||| c == '\u{85}'
    ||| c == '\u{A0}'
    ||| c == '\u{1680}'
    ||| c == '\u{2000}'
    ||| c == '\u{2001}'
    ||| c == '\u{2002}'
    ||| c == '\u{2003}'
    ||| c == '\u{2004}'
    ||| c == '\u{2005}'
    ||| c == '\u{2006}'
    ||| c == '\u{2007}'
    ||| c == '\u{2008}'
    ||| c == '\u{2009}'
    ||| c == '\u{200A}'
    ||| c == '\u{2028}'
    ||| c == '\u{2029}'
    ||| c == '\u{202F}'
    ||| c == '\u{205F}'
    ||| c == '\u{3000}'
}

/// Whether `c` is a whitespace character in the sense of [`is_ws`].
pub fn is_whitespace_char(c: char) -> (r: bool)
    ensures
        r == is_ws(c),
{
    c == '\u{9}' || c == '\u{A}' || c == '\u{B}' || c == '\u{C}' || c == '\u{D}' || c == ' '
        || c == '\u{85}' || c == '\u{A0}' || c == '\u{1680}' || c == '\u{2000}' || c == '\u{2001}'
        || c == '\u{2002}' || c == '\u{2003}' || c == '\u{2004}' || c == '\u{2005}'
        || c == '\u{2006}' || c == '\u{2007}' || c == '\u{2008}' || c == '\u{2009}'
        || c == '\u{200A}' || c == '\u{2028}' || c == '\u{2029}' || c == '\u{202F}'
        || c == '\u{205F}' || c == '\u{3000}'
}

/// `s` without its leading whitespace characters.
pub open spec fn trim_front(s: Seq<char>) -> Seq<char>
    decreases s.len(),
{
    if s.len() > 0 && is_ws(s[0]) {
        trim_front(s.drop_first())
    } else {
        s
    }
}

/// `s` without its trailing whitespace characters.
pub open spec fn trim_back(s: Seq<char>) -> Seq<char>
    decreases s.len(),
{
    if s.len() > 0 && is_ws(s.last()) {
        trim_back(s.drop_last())
    } else {
        s
    }
}

/// `s` without leading and trailing whitespace.
pub open spec fn trim_chars(s: Seq<char>) -> Seq<char> {
    trim_back(trim_front(s))
}

proof fn lemma_trim_front_no_leading_ws(s: Seq<char>)
    ensures
        trim_front(s).len() == 0 || !is_ws(trim_front(s)[0]),
    decreases s.len(),
{
    if s.len() > 0 && is_ws(s[0]) {
        lemma_trim_front_no_leading_ws(s.drop_first());
    }
}

proof fn lemma_trim_back_no_trailing_ws(s: Seq<char>)
    ensures
        trim_back(s).len() == 0 || !is_ws(trim_back(s).last()),
    decreases s.len(),
{
    if s.len() > 0 && is_ws(s.last()) {
        lemma_trim_back_no_trailing_ws(s.drop_last());
    }
}

proof fn lemma_trim_back_prefix(s: Seq<char>)
    ensures
        trim_back(s).len() <= s.len(),
        trim_back(s) == s.take(trim_back(s).len() as int),
    decreases s.len(),
{
    if s.len() > 0 && is_ws(s.last()) {
        lemma_trim_back_prefix(s.drop_last());
        let k = trim_back(s.drop_last()).len() as int;
        assert(s.drop_last().take(k) =~= s.take(k));
    } else {
        assert(s.take(s.len() as int) =~= s);
    }
}

/// Trimming is idempotent: a trimmed string is left as it is.
pub proof fn lemma_trim_idempotent(s: Seq<char>)
    ensures
        trim_chars(trim_chars(s)) == trim_chars(s),
{
    let u = trim_front(s);
    let t = trim_back(u);
    lemma_trim_front_no_leading_ws(s);
    lemma_trim_back_no_trailing_ws(u);
    lemma_trim_back_prefix(u);
    if t.len() > 0 {
        assert(t[0] == u[0]);
        assert(trim_front(t) == t);
        assert(trim_back(t) == t);
    }
}

/// Removes leading and trailing whitespace from a string slice.
pub fn trim_str(s: &str) -> (r: &str)
    ensures
        r@ == trim_chars(s@),
{
    let n: usize = s.unicode_len();
    let mut from: usize = 0;
    proof {
        assert(s@.skip(0) =~= s@);
    }
    loop
        invariant
            n == s@.len(),
            from <= n,
            trim_front(s@) == trim_front(s@.skip(from as int)),
        ensures
            from <= n,
            trim_front(s@) == trim_front(s@.skip(from as int)),
            from == n || !is_ws(s@[from as int]),
        decreases n - from,
    {
        if from < n {
            let c = s.get_char(from);
            if is_whitespace_char(c) {
                proof {
                    let tail = s@.skip(from as int);
                    assert(tail[0] == s@[from as int]);
                    assert(tail.drop_first() =~= s@.skip(from as int + 1));
                }
                from = from + 1;
            } else {
                break;
            }
        } else {
            break;
        }
    }
    proof {
        assert(s@.skip(from as int) =~= s@.subrange(from as int, n as int));
        if from == n {
            assert(s@.skip(from as int) =~= Seq::<char>::empty());
        } else {
            assert(s@.skip(from as int)[0] == s@[from as int]);
        }
        assert(trim_front(s@) == s@.subrange(from as int, n as int));
    }
    let mut to: usize = n;
    loop
        invariant
            n == s@.len(),
            from <= to <= n,
            trim_front(s@) == s@.subrange(from as int, n as int),
            trim_back(s@.subrange(from as int, n as int)) == trim_back(
                s@.subrange(from as int, to as int),
            ),
        ensures
            from <= to <= n,
            trim_back(s@.subrange(from as int, n as int)) == trim_back(
                s@.subrange(from as int, to as int),
            ),
            to == from || !is_ws(s@[to as int - 1]),
        decreases to,
    {
        if to > from {
            let c = s.get_char(to - 1);
            if is_whitespace_char(c) {
                proof {
                    let sub = s@.subrange(from as int, to as int);
                    assert(sub.last() == s@[to as int - 1]);
                    assert(sub.drop_last() =~= s@.subrange(from as int, to as int - 1));
                }
                to = to - 1;
            } else {
                break;
            }
        } else {
            break;
        }
    }
    let r = s.substring_char(from, to);
    proof {
        let sub = s@.subrange(from as int, to as int);
        if to == from {
            assert(sub =~= Seq::<char>::empty());
        } else {
            assert(sub.last() == s@[to as int - 1]);
        }
        assert(trim_back(sub) == sub);
        assert(r@ == trim_chars(s@));
    }
    r
}

/// The sequence of `|`-delimited fields of `s`. An empty input is one empty
/// field; every delimiter ends one field and begins the next, so the result
/// always holds at least one field.
pub open spec fn split_chars(s: Seq<char>) -> Seq<Seq<char>>
    decreases s.len(),
{
    if s.len() == 0 {
        seq![Seq::<char>::empty()]
    } else if s[0] == '|' {
        seq![Seq::<char>::empty()] + split_chars(s.drop_first())
    } else {
        let rest = split_chars(s.drop_first());
        seq![seq![s[0]] + rest[0]] + rest.skip(1)
    }
}

/// Splitting always yields at least one field.
pub proof fn lemma_split_chars_nonempty(s: Seq<char>)
    ensures
        split_chars(s).len() >= 1,
    decreases s.len(),
{
    if s.len() > 0 {
        lemma_split_chars_nonempty(s.drop_first());
    }
}

/// The field views of a sequence of owned strings.
pub open spec fn field_views(v: Seq<String>) -> Seq<Seq<char>> {
    v.map_values(|f: String| f@)
}

/// Splits `data` into its `|`-delimited fields.
pub fn split_fields(data: &str) -> (r: Vec<String>)
    ensures
        field_views(r@) == split_chars(data@),
{
    let n: usize = data.unicode_len();
    let mut fields: Vec<String> = Vec::new();
    let mut start: usize = 0;
    let mut i: usize = 0;
    proof {
        lemma_split_chars_nonempty(data@);
        assert(field_views(fields@) =~~= Seq::<Seq<char>>::empty());
        assert(data@.skip(0) =~= data@);
        let whole = split_chars(data@);
        assert(data@.subrange(0, 0) + whole[0] =~= whole[0]);
        assert(whole =~~= seq![whole[0]] + whole.skip(1));
        assert(split_chars(data@) =~~= field_views(fields@) + seq![
            data@.subrange(0, 0) + split_chars(data@.skip(0))[0],
        ] + split_chars(data@.skip(0)).skip(1));
    }
    loop
        invariant
            n == data@.len(),
            start <= i <= n,
            split_chars(data@) == field_views(fields@) + seq![
                data@.subrange(start as int, i as int) + split_chars(data@.skip(i as int))[0],
            ] + split_chars(data@.skip(i as int)).skip(1),
        ensures
            start <= i <= n,
            i == n,
            split_chars(data@) == field_views(fields@) + seq![
                data@.subrange(start as int, i as int) + split_chars(data@.skip(i as int))[0],
            ] + split_chars(data@.skip(i as int)).skip(1),
        decreases n - i,
    {
        if i < n {
            let c = data.get_char(i);
            proof {
                let tail = data@.skip(i as int);
                assert(tail[0] == data@[i as int]);
                assert(tail.drop_first() =~= data@.skip(i as int + 1));
                lemma_split_chars_nonempty(data@.skip(i as int + 1));
            }
            if c == '|' {
                let fld = data.substring_char(start, i);
                let ghost old_fields = fields@;
                fields.push(fld.to_owned());
                proof {
                    let tail = data@.skip(i as int);
                    let rest = split_chars(data@.skip(i as int + 1));
                    assert(split_chars(tail) == seq![Seq::<char>::empty()] + rest);
                    assert(field_views(fields@) =~~= field_views(old_fields) + seq![
                        data@.subrange(start as int, i as int),
                    ]);
                    assert((seq![Seq::<char>::empty()] + rest).skip(1) =~~= rest);
                    assert(rest =~~= seq![rest[0]] + rest.skip(1));
                    assert(data@.subrange(start as int, i as int) + Seq::<char>::empty()
                        =~= data@.subrange(start as int, i as int));
                    assert(split_chars(data@) =~~= field_views(fields@) + seq![
                        data@.subrange(i as int + 1, i as int + 1) + rest[0],
                    ] + rest.skip(1)) by {
                        assert(data@.subrange(i as int + 1, i as int + 1) + rest[0] =~= rest[0]);
                    }
                }
                start = i + 1;
                i = i + 1;
            } else {
                proof {
                    let tail = data@.skip(i as int);
                    let rest = split_chars(data@.skip(i as int + 1));
                    assert(split_chars(tail) == seq![seq![data@[i as int]] + rest[0]]
                        + rest.skip(1));
                    assert(data@.subrange(start as int, i as int) + (seq![data@[i as int]]
                        + rest[0]) =~= data@.subrange(start as int, i as int + 1) + rest[0]);
                    assert(split_chars(data@) =~~= field_views(fields@) + seq![
                        data@.subrange(start as int, i as int + 1) + rest[0],
                    ] + rest.skip(1));
                }
                i = i + 1;
            }
        } else {
            break;
        }
    }
    let fld = data.substring_char(start, n);
    let ghost old_fields = fields@;
    fields.push(fld.to_owned());
    proof {
        assert(data@.skip(n as int) =~= Seq::<char>::empty());
        let empty_split = split_chars(Seq::<char>::empty());
        assert(empty_split == seq![Seq::<char>::empty()]);
        assert(empty_split.skip(1) =~~= Seq::<Seq<char>>::empty());
        assert(data@.subrange(start as int, n as int) + Seq::<char>::empty() =~= data@.subrange(
            start as int,
            n as int,
        ));
        assert(field_views(fields@) =~~= field_views(old_fields) + seq![
            data@.subrange(start as int, n as int),
        ]);
        assert(split_chars(data@) =~~= field_views(fields@));
    }
    fields
}

} // verus!
