use vstd::prelude::*;

verus! {

/// `String::push` of std appends one character to the end of the string and
/// leaves the characters before it as they were.
pub assume_specification[ String::push ](s: &mut String, c: char)
    ensures
        final(s)@ == old(s)@.push(c),
;

/// The characters of `s`, in order.
pub(crate) fn chars_of(s: &str) -> (v: Vec<char>)
    ensures
        v@ == s@,
{
    let mut v: Vec<char> = Vec::new();
    for c in it: s.chars()
        invariant
            it.seq() == s@,
            v@ == s@.take(it.index() as int),
    {
        v.push(c);
    }
    v
}

/// The string made of the characters `v[lo..hi]`.
pub(crate) fn string_of(v: &Vec<char>, lo: usize, hi: usize) -> (s: String)
    requires
        lo <= hi <= v.len(),
    ensures
        s@ == v@.subrange(lo as int, hi as int),
{
    let mut s = String::new();
    let mut i: usize = lo;
    while i < hi
        invariant
            lo <= i <= hi <= v.len(),
            s@ == v@.subrange(lo as int, i as int),
        decreases hi - i,
    {
        s.push(v[i]);
        i += 1;
    }
    s
}

/// Whether `v` holds the text `s`.
pub(crate) fn holds_text(v: &Vec<char>, s: &str) -> (b: bool)
    ensures
        b == (v@ == s@),
{
    let other = chars_of(s);
    if v.len() != other.len() {
        return false;
    }
    let mut i: usize = 0;
    while i < v.len()
        invariant
            i <= v.len() == other.len(),
            other@ == s@,
            v@.take(i as int) == other@.take(i as int),
        decreases v.len() - i,
    {
        if v[i] != other[i] {
            return false;
        }
        proof {
            assert(v@.take(i + 1) =~= v@.take(i as int).push(v@[i as int]));
            assert(other@.take(i + 1) =~= other@.take(i as int).push(other@[i as int]));
        }
        i += 1;
    }
    proof {
        assert(v@.take(i as int) =~= v@);
        assert(other@.take(i as int) =~= other@);
    }
    true
}

/// Whether `c` is white space: the characters that carry Unicode's
/// `White_Space` property.
pub open spec fn is_space(c: char) -> bool {
    let n = c as u32;
    ||| 0x09 <= n <= 0x0D
    ||| n == 0x20
    ||| n == 0x85
    ||| n == 0xA0
    ||| n == 0x1680
    ||| 0x2000 <= n <= 0x200A
    ||| n == 0x2028
    ||| n == 0x2029
    ||| n == 0x202F
    ||| n == 0x205F
    ||| n == 0x3000
}

/// Tests a character for white space.
pub fn char_is_space(c: char) -> (b: bool)
    ensures
        b == is_space(c),
{
    let n: u32 = c as u32;
    (0x09 <= n && n <= 0x0D) || n == 0x20 || n == 0x85 || n == 0xA0 || n == 0x1680 || (0x2000 <= n
        && n <= 0x200A) || n == 0x2028 || n == 0x2029 || n == 0x202F || n == 0x205F || n == 0x3000
}

/// `s` without its leading white space.
pub open spec fn trim_start(s: Seq<char>) -> Seq<char>
    decreases s.len(),
{
    if s.len() > 0 && is_space(s.first()) {
        trim_start(s.drop_first())
    } else {
        s
    }
}

/// `s` without its trailing white space.
pub open spec fn trim_end(s: Seq<char>) -> Seq<char>
    decreases s.len(),
{
    if s.len() > 0 && is_space(s.last()) {
        trim_end(s.drop_last())
    } else {
        s
    }
}

/// `s` without the white space that surrounds it.
pub open spec fn trimmed(s: Seq<char>) -> Seq<char> {
    trim_end(trim_start(s))
}

/// `s` without its double quote characters.
pub open spec fn unquoted(s: Seq<char>) -> Seq<char> {
    s.filter(|c: char| c != '"')
}

/// The normal form of a configured value: every double quote is dropped, then
/// the surrounding white space is trimmed.
pub open spec fn normalized(s: Seq<char>) -> Seq<char> {
    trimmed(unquoted(s))
}

/// Drops the double quotes of `v`.
pub(crate) fn unquote_chars(v: &Vec<char>) -> (out: Vec<char>)
    ensures
        out@ == unquoted(v@),
{
    let mut out: Vec<char> = Vec::new();
    let mut i: usize = 0;
    proof {
        reveal(Seq::filter);
    }
    while i < v.len()
        invariant
            i <= v.len(),
            out@ == unquoted(v@.take(i as int)),
        decreases v.len() - i,
    {
        proof {
            reveal(Seq::filter);
            assert(v@.take(i + 1).drop_last() =~= v@.take(i as int));
        }
        if v[i] != '"' {
            out.push(v[i]);
        }
        i += 1;
    }
    proof {
        assert(v@.take(i as int) =~= v@);
    }
    out
}

/// The bounds of `v` without the white space that surrounds it.
pub(crate) fn trim_bounds(v: &Vec<char>) -> (b: (usize, usize))
    ensures
        b.0 <= b.1 <= v.len(),
        v@.subrange(b.0 as int, b.1 as int) == trimmed(v@),
{
    let mut lo: usize = 0;
    proof {
        assert(v@.skip(0) =~= v@);
    }
    while lo < v.len() && char_is_space(v[lo])
        invariant
            lo <= v.len(),
            trim_start(v@) == trim_start(v@.skip(lo as int)),
        decreases v.len() - lo,
    {
        proof {
            assert(v@.skip(lo as int).drop_first() =~= v@.skip(lo + 1));
        }
        lo += 1;
    }
    let ghost rest = v@.skip(lo as int);
    let mut hi: usize = v.len();
    proof {
        assert(rest.take(hi - lo) =~= rest);
    }
    while hi > lo && char_is_space(v[hi - 1])
        invariant
            lo <= hi <= v.len(),
            rest == v@.skip(lo as int),
            trim_end(rest) == trim_end(rest.take(hi - lo)),
        decreases hi,
    {
        proof {
            assert(rest.take(hi - lo).drop_last() =~= rest.take(hi - lo - 1));
        }
        hi -= 1;
    }
    proof {
        assert(rest.take(hi - lo) =~= v@.subrange(lo as int, hi as int));
    }
    (lo, hi)
}

/// The characters `v[lo..hi]`.
pub(crate) fn slice_of(v: &Vec<char>, lo: usize, hi: usize) -> (out: Vec<char>)
    requires
        lo <= hi <= v.len(),
    ensures
        out@ == v@.subrange(lo as int, hi as int),
{
    let mut out: Vec<char> = Vec::new();
    let mut i: usize = lo;
    while i < hi
        invariant
            lo <= i <= hi <= v.len(),
            out@ == v@.subrange(lo as int, i as int),
        decreases hi - i,
    {
        out.push(v[i]);
        i += 1;
    }
    out
}

/// The normal form of the value that `v` holds.
pub(crate) fn normalize_chars(v: &Vec<char>) -> (out: Vec<char>)
    ensures
        out@ == normalized(v@),
{
    let bare = unquote_chars(v);
    let (lo, hi) = trim_bounds(&bare);
    slice_of(&bare, lo, hi)
}

/// The string that holds the characters of `v`.
pub(crate) fn string_from(v: &Vec<char>) -> (s: String)
    ensures
        s@ == v@,
{
    proof {
        assert(v@.subrange(0, v@.len() as int) =~= v@);
    }
    string_of(v, 0, v.len())
}

/// Brings a configured value to its normal form: without double quotes, and
/// without white space around it.
pub fn normalize(s: &str) -> (out: String)
    ensures
        out@ == normalized(s@),
        forall|i: int| 0 <= i < out@.len() ==> out@[i] != '"',
        out@.len() > 0 ==> !is_space(out@.first()) && !is_space(out@.last()),
{
    proof {
        lemma_normalized(s@);
    }
    string_from(&normalize_chars(&chars_of(s)))
}

/// The pieces into which the occurrences of `sep` cut `s`: a separator opens
/// a new piece, any other character extends the piece that is open. There is
/// one piece more than there are separators, and a piece may be empty.
pub open spec fn split(s: Seq<char>, sep: char) -> Seq<Seq<char>>
    decreases s.len(),
{
    if s.len() == 0 {
        seq![Seq::empty()]
    } else {
        let before = split(s.drop_last(), sep);
        if s.last() == sep {
            before.push(Seq::empty())
        } else {
            before.drop_last().push(before.last().push(s.last()))
        }
    }
}

/// The arguments that a configured argument string stands for: its normal
/// form is cut at every single space, and the empty pieces are discarded.
pub open spec fn arguments(s: Seq<char>) -> Seq<Seq<char>> {
    split(normalized(s), ' ').filter(|piece: Seq<char>| piece.len() > 0)
}

/// The character sequences that `pieces` hold, in order.
pub(crate) open spec fn views(pieces: Seq<Vec<char>>) -> Seq<Seq<char>> {
    pieces.map_values(|piece: Vec<char>| piece@)
}

/// Cuts `v` at every occurrence of `sep`.
pub(crate) fn split_chars(v: &Vec<char>, sep: char) -> (pieces: Vec<Vec<char>>)
    ensures
        views(pieces@) == split(v@, sep),
{
    let mut pieces: Vec<Vec<char>> = Vec::new();
    let mut open: Vec<char> = Vec::new();
    let mut i: usize = 0;
    while i < v.len()
        invariant
            i <= v.len(),
            views(pieces@).push(open@) == split(v@.take(i as int), sep),
        decreases v.len() - i,
    {
        let ghost before = views(pieces@).push(open@);
        proof {
            assert(v@.take(i + 1).drop_last() =~= v@.take(i as int));
        }
        if v[i] == sep {
            pieces.push(open);
            open = Vec::new();
            proof {
                assert(views(pieces@) =~= before);
            }
        } else {
            open.push(v[i]);
            proof {
                assert(views(pieces@) =~= before.drop_last());
            }
        }
        i += 1;
    }
    proof {
        assert(v@.take(i as int) =~= v@);
    }
    let ghost all = views(pieces@).push(open@);
    pieces.push(open);
    proof {
        assert(views(pieces@) =~= all);
    }
    pieces
}

/// Reads a configured argument string into the arguments it stands for. No
/// argument is empty, and none holds a space or a double quote.
pub fn parse_args(s: &str) -> (args: Vec<String>)
    ensures
        args.deep_view() == arguments(s@),
        forall|i: int|
            0 <= i < args.len() ==> (#[trigger] args[i])@.len() > 0 && forall|k: int|
                0 <= k < args[i]@.len() ==> args[i]@[k] != ' ' && args[i]@[k] != '"',
{
    let normal = normalize_chars(&chars_of(s));
    let pieces = split_chars(&normal, ' ');
    let ghost keep = |piece: Seq<char>| piece.len() > 0;
    let mut args: Vec<String> = Vec::new();
    let mut i: usize = 0;
    proof {
        reveal(Seq::filter);
        assert(args.deep_view() =~= views(pieces@).take(0).filter(keep));
    }
    while i < pieces.len()
        invariant
            i <= pieces.len(),
            keep == |piece: Seq<char>| piece.len() > 0,
            args.deep_view() == views(pieces@).take(i as int).filter(keep),
        decreases pieces.len() - i,
    {
        let ghost kept = args.deep_view();
        proof {
            reveal(Seq::filter);
            assert(views(pieces@).take(i + 1).drop_last() =~= views(pieces@).take(i as int));
            assert(views(pieces@).take(i + 1).last() == pieces[i as int]@);
        }
        if pieces[i].len() > 0 {
            let arg = string_from(&pieces[i]);
            args.push(arg);
            proof {
                assert(args.deep_view() =~= kept.push(pieces[i as int]@));
            }
        }
        i += 1;
    }
    proof {
        assert(views(pieces@).take(i as int) =~= views(pieces@));
        lemma_arguments_are_words(s@);
        assert forall|i: int| 0 <= i < args.len() implies (#[trigger] args[i])@.len() > 0
            && forall|k: int|
            0 <= k < args[i]@.len() ==> args[i]@[k] != ' ' && args[i]@[k] != '"' by {
            assert(args.deep_view()[i] == args[i]@);
            assert(arguments(s@)[i] == args[i]@);
        }
    }
    args
}

/// What `trim_start` leaves is the end of `s`, and does not begin with white
/// space.
proof fn lemma_trim_start(s: Seq<char>)
    ensures
        trim_start(s).len() <= s.len(),
        trim_start(s) == s.skip(s.len() - trim_start(s).len()),
        trim_start(s).len() > 0 ==> !is_space(trim_start(s).first()),
    decreases s.len(),
{
    if s.len() > 0 && is_space(s.first()) {
        let rest = s.drop_first();
        lemma_trim_start(rest);
        assert(rest.skip(rest.len() - trim_start(rest).len()) =~= s.skip(
            s.len() - trim_start(rest).len(),
        ));
    } else {
        assert(s.skip(0) =~= s);
    }
}

/// What `trim_end` leaves is the beginning of `s`, and does not end with
/// white space.
proof fn lemma_trim_end(s: Seq<char>)
    ensures
        trim_end(s).len() <= s.len(),
        trim_end(s) == s.take(trim_end(s).len() as int),
        trim_end(s).len() > 0 ==> !is_space(trim_end(s).last()),
    decreases s.len(),
{
    if s.len() > 0 && is_space(s.last()) {
        let rest = s.drop_last();
        lemma_trim_end(rest);
        assert(rest.take(trim_end(rest).len() as int) =~= s.take(trim_end(rest).len() as int));
    } else {
        assert(s.take(s.len() as int) =~= s);
    }
}

/// Trimming cuts one run of characters out of `s`, and the run neither
/// begins nor ends with white space.
pub proof fn lemma_trimmed_is_tight(s: Seq<char>)
    ensures
        exists|lo: int, hi: int| 0 <= lo <= hi <= s.len() && trimmed(s) == s.subrange(lo, hi),
        trimmed(s).len() > 0 ==> !is_space(trimmed(s).first()) && !is_space(trimmed(s).last()),
{
    let tail = trim_start(s);
    lemma_trim_start(s);
    lemma_trim_end(tail);
    let lo = s.len() - tail.len();
    let hi = lo + trimmed(s).len();
    assert(s.skip(lo).take(trimmed(s).len() as int) =~= s.subrange(lo, hi));
    if trimmed(s).len() > 0 {
        assert(trimmed(s).first() == tail.first());
    }
}

/// No double quote is left in `unquoted(s)`, and a sequence without double
/// quotes is left as it is.
pub proof fn lemma_unquoted(s: Seq<char>)
    ensures
        forall|i: int| 0 <= i < unquoted(s).len() ==> unquoted(s)[i] != '"',
        (forall|i: int| 0 <= i < s.len() ==> s[i] != '"') ==> unquoted(s) == s,
    decreases s.len(),
{
    reveal(Seq::filter);
    if s.len() > 0 {
        lemma_unquoted(s.drop_last());
        if forall|i: int| 0 <= i < s.len() ==> s[i] != '"' {
            assert(forall|i: int|
                0 <= i < s.drop_last().len() ==> s.drop_last()[i] == s[i]);
            assert(s.drop_last().push(s.last()) =~= s);
        }
    }
}

/// A value in normal form holds no double quote and is not surrounded by
/// white space; bringing it to normal form once more changes nothing.
pub proof fn lemma_normalized(s: Seq<char>)
    ensures
        forall|i: int| 0 <= i < normalized(s).len() ==> normalized(s)[i] != '"',
        normalized(s).len() > 0 ==> !is_space(normalized(s).first()) && !is_space(
            normalized(s).last(),
        ),
        normalized(normalized(s)) == normalized(s),
{
    let bare = unquoted(s);
    let normal = normalized(s);
    lemma_unquoted(s);
    lemma_trimmed_is_tight(bare);
    let (lo, hi) = choose|lo: int, hi: int|
        0 <= lo <= hi <= bare.len() && trimmed(bare) == bare.subrange(lo, hi);
    assert forall|i: int| 0 <= i < normal.len() implies normal[i] != '"' by {
        assert(normal[i] == bare[lo + i]);
    }
    lemma_unquoted(normal);
}

/// No piece of `split(s, sep)` holds the separator.
pub proof fn lemma_split_pieces_lack_separator(s: Seq<char>, sep: char)
    ensures
        split(s, sep).len() > 0,
        forall|i: int, k: int|
            0 <= i < split(s, sep).len() && 0 <= k < split(s, sep)[i].len() ==> split(
                s,
                sep,
            )[i][k] != sep,
    decreases s.len(),
{
    if s.len() > 0 {
        lemma_split_pieces_lack_separator(s.drop_last(), sep);
    }
}

/// `pieces` put together again with `sep` between one and the next.
pub open spec fn joined(pieces: Seq<Seq<char>>, sep: char) -> Seq<char>
    decreases pieces.len(),
{
    if pieces.len() == 0 {
        Seq::empty()
    } else if pieces.len() == 1 {
        pieces[0]
    } else {
        joined(pieces.drop_last(), sep).push(sep) + pieces.last()
    }
}

/// Splitting loses nothing: the pieces of `s`, joined by the separator, are
/// `s` again.
pub proof fn lemma_split_joins_back(s: Seq<char>, sep: char)
    ensures
        joined(split(s, sep), sep) == s,
    decreases s.len(),
{
    if s.len() == 0 {
        assert(joined(split(s, sep), sep) =~= s);
    } else {
        let before = split(s.drop_last(), sep);
        lemma_split_joins_back(s.drop_last(), sep);
        lemma_split_pieces_lack_separator(s.drop_last(), sep);
        if s.last() == sep {
            assert(before.push(Seq::empty()).drop_last() =~= before);
            assert(joined(before, sep).push(sep) + Seq::<char>::empty() =~= s);
        } else {
            let grown = before.drop_last().push(before.last().push(s.last()));
            if before.len() == 1 {
                assert(grown[0] =~= s);
            } else {
                assert(grown.drop_last() =~= before.drop_last());
                assert(joined(before.drop_last(), sep).push(sep) + before.last().push(s.last())
                    =~= (joined(before.drop_last(), sep).push(sep) + before.last()).push(
                    s.last(),
                ));
                assert(s.drop_last().push(s.last()) =~= s);
            }
        }
    }
}

/// The arguments of `s` are not empty, and none holds a space or a double
/// quote.
pub proof fn lemma_arguments_are_words(s: Seq<char>)
    ensures
        forall|i: int|
            0 <= i < arguments(s).len() ==> (#[trigger] arguments(s)[i]).len() > 0 && forall|
                k: int,
            |
                0 <= k < arguments(s)[i].len() ==> arguments(s)[i][k] != ' ' && arguments(
                    s,
                )[i][k] != '"',
{
    let normal = normalized(s);
    let pieces = split(normal, ' ');
    let keep = |piece: Seq<char>| piece.len() > 0;
    lemma_normalized(s);
    lemma_split_pieces_lack_separator(normal, ' ');
    lemma_pieces_hold_what_was_split(normal, ' ');
    assert forall|i: int| 0 <= i < arguments(s).len() implies (#[trigger] arguments(s)[i]).len()
        > 0 && forall|k: int|
        0 <= k < arguments(s)[i].len() ==> arguments(s)[i][k] != ' ' && arguments(s)[i][k]
            != '"' by {
        let arg = arguments(s)[i];
        pieces.lemma_filter_pred(keep, i);
        pieces.lemma_filter_contains_rev(keep, arg);
        let j = choose|j: int| 0 <= j < pieces.len() && pieces[j] == arg;
        assert forall|k: int| 0 <= k < arg.len() implies arg[k] != ' ' && arg[k] != '"' by {
            assert(pieces[j][k] != ' ');
            assert(normal.contains(pieces[j][k]));
        }
    }
}

/// Every character of a piece of `split(s, sep)` is a character of `s`.
proof fn lemma_pieces_hold_what_was_split(s: Seq<char>, sep: char)
    ensures
        forall|i: int, k: int|
            0 <= i < split(s, sep).len() && 0 <= k < split(s, sep)[i].len() ==> s.contains(
                #[trigger] split(s, sep)[i][k],
            ),
    decreases s.len(),
{
    if s.len() > 0 {
        let init = s.drop_last();
        let before = split(init, sep);
        lemma_pieces_hold_what_was_split(init, sep);
        lemma_split_pieces_lack_separator(init, sep);
        assert forall|i: int, k: int|
            0 <= i < split(s, sep).len() && 0 <= k < split(s, sep)[i].len() implies s.contains(
            #[trigger] split(s, sep)[i][k],
        ) by {
            let c = split(s, sep)[i][k];
            if s.last() != sep && i == before.len() - 1 && k == before.last().len() {
                assert(s[s.len() - 1] == c);
            } else {
                assert(before[i][k] == c);
                assert(init.contains(c));
                let at = choose|at: int| 0 <= at < init.len() && init[at] == c;
                assert(s[at] == c);
            }
        }
    }
}

} // verus!
