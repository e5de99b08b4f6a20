//! Character sequences: splitting, joining and the conversions between
//! `String` and `Vec<char>` that the path logic is built on.

use vstd::prelude::*;

verus! {

/// The views of the items of a sequence, in order.
pub open spec fn view_all<T: View>(s: Seq<T>) -> Seq<T::V> {
    s.map_values(|x: T| x@)
}

/// The pieces of `s` between occurrences of `sep`. There is always at least
/// one piece; `k` separators give `k + 1` pieces, some of them possibly empty.
pub open spec fn split(s: Seq<char>, sep: char) -> Seq<Seq<char>>
    decreases s.len(),
{
    if s.len() == 0 {
        seq![Seq::<char>::empty()]
    } else {
        let before = split(s.drop_last(), sep);
        if s.last() == sep {
            before.push(Seq::<char>::empty())
        } else {
            before.drop_last().push(before.last().push(s.last()))
        }
    }
}

/// The pieces of `parts` written one after another with `sep` between them.
pub open spec fn join(parts: Seq<Seq<char>>, sep: char) -> Seq<char>
    decreases parts.len(),
{
    if parts.len() == 0 {
        Seq::<char>::empty()
    } else if parts.len() == 1 {
        parts[0]
    } else {
        join(parts.drop_last(), sep).push(sep) + parts.last()
    }
}

/// `split` never returns an empty list of pieces.
pub proof fn lemma_split_nonempty(s: Seq<char>, sep: char)
    ensures
        split(s, sep).len() >= 1,
    decreases s.len(),
{
    if s.len() > 0 {
        lemma_split_nonempty(s.drop_last(), sep);
    }
}

/// No piece that `split` returns holds the separator.
pub proof fn lemma_split_pieces_hold_no_sep(s: Seq<char>, sep: char)
    ensures
        forall|i: int| 0 <= i < split(s, sep).len() ==> !(#[trigger] split(s, sep)[i]).contains(sep),
    decreases s.len(),
{
    if s.len() > 0 {
        let before = split(s.drop_last(), sep);
        lemma_split_nonempty(s.drop_last(), sep);
        lemma_split_pieces_hold_no_sep(s.drop_last(), sep);
        if s.last() != sep {
            let grown = before.last().push(s.last());
            assert forall|j: int| 0 <= j < grown.len() implies grown[j] != sep by {
                if j < before.last().len() {
                    assert(before.last().contains(grown[j]));
                    assert(!before[before.len() - 1].contains(sep));
                }
            }
            assert(!grown.contains(sep));
        }
    }
}

/// Joining what `split` returned gives the text back.
pub proof fn lemma_join_split(s: Seq<char>, sep: char)
    ensures
        join(split(s, sep), sep) == s,
    decreases s.len(),
{
    if s.len() > 0 {
        let rest = s.drop_last();
        let before = split(rest, sep);
        lemma_split_nonempty(rest, sep);
        lemma_join_split(rest, sep);
        if s.last() == sep {
            let now = before.push(Seq::<char>::empty());
            assert(now.drop_last() =~= before);
            assert(join(now, sep) =~= join(before, sep).push(sep));
            assert(rest.push(sep) =~= s);
        } else {
            let grown = before.last().push(s.last());
            let now = before.drop_last().push(grown);
            assert(now.drop_last() =~= before.drop_last());
            if before.len() == 1 {
                assert(join(before, sep) == before[0]);
                assert(join(now, sep) =~= rest.push(s.last()));
            } else {
                assert(join(now, sep) =~= (join(before.drop_last(), sep).push(sep) + before.last()).push(
                    s.last(),
                ));
            }
            assert(rest.push(s.last()) =~= s);
        }
    }
}

/// Splitting a text that holds no separator gives the text as its one piece.
pub proof fn lemma_split_without_sep(s: Seq<char>, sep: char)
    requires
        !s.contains(sep),
    ensures
        split(s, sep) == seq![s],
    decreases s.len(),
{
    if s.len() == 0 {
        assert(s =~= Seq::<char>::empty());
    } else {
        let rest = s.drop_last();
        assert forall|j: int| 0 <= j < rest.len() implies rest[j] != sep by {
            assert(s.contains(s[j]));
        }
        lemma_split_without_sep(rest, sep);
        assert(s.contains(s.last()));
        let before = split(rest, sep);
        assert(before.drop_last() =~= Seq::<Seq<char>>::empty());
        assert(before.last() == rest);
        assert(rest.push(s.last()) =~= s);
        assert(before.drop_last().push(s) =~= seq![s]);
    }
}

/// Splitting `a`, a separator and a piece `b` without separators gives the
/// pieces of `a` followed by `b`.
pub proof fn lemma_split_push_piece(a: Seq<char>, b: Seq<char>, sep: char)
    requires
        !b.contains(sep),
    ensures
        split(a.push(sep) + b, sep) == split(a, sep).push(b),
    decreases b.len(),
{
    let whole = a.push(sep) + b;
    if b.len() == 0 {
        assert(whole =~= a.push(sep));
        assert(whole.drop_last() =~= a);
        assert(b =~= Seq::<char>::empty());
    } else {
        let shorter = b.drop_last();
        assert forall|j: int| 0 <= j < shorter.len() implies shorter[j] != sep by {
            assert(b.contains(b[j]));
        }
        lemma_split_push_piece(a, shorter, sep);
        assert(whole.drop_last() =~= a.push(sep) + shorter);
        assert(b.contains(b.last()));
        assert(whole.last() == b.last());
        let before = split(a, sep).push(shorter);
        assert(before.drop_last() =~= split(a, sep));
        assert(shorter.push(b.last()) =~= b);
    }
}

/// Splitting what `join` wrote gives the pieces back, provided there is at
/// least one piece and none holds the separator.
pub proof fn lemma_split_join(parts: Seq<Seq<char>>, sep: char)
    requires
        parts.len() >= 1,
        forall|i: int| 0 <= i < parts.len() ==> !(#[trigger] parts[i]).contains(sep),
    ensures
        split(join(parts, sep), sep) == parts,
    decreases parts.len(),
{
    if parts.len() == 1 {
        lemma_split_without_sep(parts[0], sep);
        assert(seq![parts[0]] =~= parts);
    } else {
        let front = parts.drop_last();
        assert forall|i: int| 0 <= i < front.len() implies !(#[trigger] front[i]).contains(sep) by {
            assert(front[i] == parts[i]);
        }
        lemma_split_join(front, sep);
        lemma_split_push_piece(join(front, sep), parts.last(), sep);
        assert(front.push(parts.last()) =~= parts);
    }
}

/// Appends one character to a `String`; states what `String::push` does to
/// the text, which vstd leaves unspecified.
#[verifier::external_body]
pub(crate) fn push_char(s: &mut String, c: char)
    ensures
        final(s)@ == old(s)@.push(c),
{
    s.push(c)
}

/// The characters of a string slice.
pub fn to_chars(s: &str) -> (v: Vec<char>)
    ensures
        v@ == s@,
{
    let mut v: Vec<char> = Vec::new();
    for c in it: s.chars()
        invariant
            v@ == it.seq().take(it.index()),
            it.seq() == s@,
    {
        v.push(c);
    }
    v
}

/// The string made of the given characters.
pub fn from_chars(v: &Vec<char>) -> (s: String)
    ensures
        s@ == v@,
{
    let mut s = String::new();
    let mut i: usize = 0;
    while i < v.len()
        invariant
            i <= v.len(),
            s@ == v@.take(i as int),
        decreases v.len() - i,
    {
        push_char(&mut s, v[i]);
        proof {
            assert(v@.take(i as int).push(v@[i as int]) =~= v@.take(i + 1));
        }
        i += 1;
    }
    proof {
        assert(v@.take(v.len() as int) =~= v@);
    }
    s
}

/// A copy of a list of characters.
pub fn copy_chars(v: &Vec<char>) -> (r: Vec<char>)
    ensures
        r@ == v@,
{
    let mut r: Vec<char> = Vec::new();
    let mut i: usize = 0;
    while i < v.len()
        invariant
            i <= v.len(),
            r@ == v@.take(i as int),
        decreases v.len() - i,
    {
        r.push(v[i]);
        proof {
            assert(v@.take(i as int).push(v@[i as int]) =~= v@.take(i + 1));
        }
        i += 1;
    }
    proof {
        assert(v@.take(v.len() as int) =~= v@);
    }
    r
}

/// Whether two lists of characters hold the same text.
pub fn chars_equal(a: &Vec<char>, b: &Vec<char>) -> (r: bool)
    ensures
        r == (a@ == b@),
{
    if a.len() != b.len() {
        return false;
    }
    let mut i: usize = 0;
    while i < a.len()
        invariant
            i <= a.len(),
            a.len() == b.len(),
            forall|j: int| 0 <= j < i ==> a@[j] == b@[j],
        decreases a.len() - i,
    {
        if a[i] != b[i] {
            return false;
        }
        i += 1;
    }
    proof {
        assert(a@ =~= b@);
    }
    true
}

/// Cuts `s` at every `sep`, as [`split`] describes.
pub fn split_chars(s: &Vec<char>, sep: char) -> (parts: Vec<Vec<char>>)
    ensures
        view_all(parts@) == split(s@, sep),
{
    let mut parts: Vec<Vec<char>> = Vec::new();
    let mut current: Vec<char> = Vec::new();
    let mut i: usize = 0;
    proof {
        assert(s@.take(0) =~= Seq::<char>::empty());
        assert(view_all(parts@).push(current@) =~= seq![Seq::<char>::empty()]);
    }
    while i < s.len()
        invariant
            i <= s.len(),
            view_all(parts@).push(current@) == split(s@.take(i as int), sep),
        decreases s.len() - i,
    {
        let c = s[i];
        let ghost before = split(s@.take(i as int), sep);
        let ghost old_parts = view_all(parts@);
        let ghost old_current = current@;
        proof {
            assert(s@.take(i + 1).drop_last() =~= s@.take(i as int));
            assert(s@.take(i + 1).last() == c);
            assert(before.last() == old_current);
            assert(before.drop_last() =~= old_parts);
        }
        if c == sep {
            parts.push(current);
            current = Vec::new();
            proof {
                assert(view_all(parts@) =~= old_parts.push(old_current));
            }
        } else {
            current.push(c);
        }
        i += 1;
    }
    parts.push(current);
    proof {
        assert(s@.take(s.len() as int) =~= s@);
        assert(view_all(parts@) =~= split(s@, sep));
    }
    parts
}

/// Writes the pieces one after another with `sep` between them, as [`join`]
/// describes.
pub fn join_chars(parts: &Vec<Vec<char>>, sep: char) -> (r: Vec<char>)
    ensures
        r@ == join(view_all(parts@), sep),
{
    let mut r: Vec<char> = Vec::new();
    let mut i: usize = 0;
    let ghost all = view_all(parts@);
    proof {
        assert(all.take(0) =~= Seq::<Seq<char>>::empty());
    }
    while i < parts.len()
        invariant
            i <= parts.len(),
            all == view_all(parts@),
            r@ == join(all.take(i as int), sep),
        decreases parts.len() - i,
    {
        if i > 0 {
            r.push(sep);
        }
        let piece = &parts[i];
        let ghost start = r@;
        let mut j: usize = 0;
        while j < piece.len()
            invariant
                j <= piece.len(),
                r@ == start + piece@.take(j as int),
            decreases piece.len() - j,
        {
            r.push(piece[j]);
            proof {
                assert(piece@.take(j as int).push(piece@[j as int]) =~= piece@.take(j + 1));
            }
            j += 1;
        }
        proof {
            assert(piece@.take(piece.len() as int) =~= piece@);
            assert(all.take(i + 1).drop_last() =~= all.take(i as int));
            assert(all.take(i + 1).last() == piece@);
            if i == 0 {
                assert(start =~= Seq::<char>::empty());
                assert(r@ =~= piece@);
            }
        }
        i += 1;
    }
    proof {
        assert(all.take(parts.len() as int) =~= all);
    }
    r
}


/// The character for a digit below ten.
pub open spec fn decimal_digit(d: int) -> char
    recommends
        0 <= d < 10,
{
    (('0' as u8) + d) as char
}

/// A number written in decimal digits, without leading zeros.
pub open spec fn decimal_of(n: nat) -> Seq<char>
    decreases n,
{
    if n < 10 {
        seq![decimal_digit(n as int)]
    } else {
        decimal_of(n / 10).push(decimal_digit((n % 10) as int))
    }
}

/// Writes a number in decimal digits, as [`decimal_of`] describes.
pub fn decimal_chars(n: u64) -> (r: Vec<char>)
    ensures
        r@ == decimal_of(n as nat),
    decreases n,
{
    if n < 10 {
        let mut r: Vec<char> = Vec::new();
        r.push((48u8 + (n as u8)) as char);
        proof {
            assert(r@ =~= seq![decimal_digit(n as int)]);
        }
        r
    } else {
        let mut r = decimal_chars(n / 10);
        r.push((48u8 + ((n % 10) as u8)) as char);
        r
    }
}

/// Appends a text to `to`.
pub fn append_text(to: &mut Vec<char>, more: &str)
    ensures
        final(to)@ == old(to)@ + more@,
{
    let chars = to_chars(more);
    append_chars(to, &chars);
}

/// Appends a number in decimal digits to `to`.
pub fn append_number(to: &mut Vec<char>, n: u64)
    ensures
        final(to)@ == old(to)@ + decimal_of(n as nat),
{
    let digits = decimal_chars(n);
    append_chars(to, &digits);
}

/// Appends the characters of `more` to `to`.
pub fn append_chars(to: &mut Vec<char>, more: &Vec<char>)
    ensures
        final(to)@ == old(to)@ + more@,
{
    let ghost start = to@;
    let mut i: usize = 0;
    proof {
        assert(start + more@.take(0) =~= start);
    }
    while i < more.len()
        invariant
            i <= more.len(),
            to@ == start + more@.take(i as int),
        decreases more.len() - i,
    {
        to.push(more[i]);
        proof {
            assert((start + more@.take(i as int)).push(more@[i as int]) =~= start + more@.take(
                i + 1,
            ));
        }
        i += 1;
    }
    proof {
        assert(more@.take(more.len() as int) =~= more@);
    }
}

/// A copy of a list of strings.
pub fn clone_strings(v: &Vec<String>) -> (r: Vec<String>)
    ensures
        view_all(r@) == view_all(v@),
{
    let mut r: Vec<String> = Vec::new();
    let mut i: usize = 0;
    while i < v.len()
        invariant
            i <= v.len(),
            r.len() == i,
            forall|j: int| 0 <= j < i ==> r@[j]@ == v@[j]@,
        decreases v.len() - i,
    {
        r.push(v[i].clone());
        i += 1;
    }
    proof {
        assert(view_all(r@) =~= view_all(v@));
    }
    r
}

/// A copy of a list of bytes.
pub fn copy_bytes(v: &[u8]) -> (r: Vec<u8>)
    ensures
        r@ == v@,
{
    let mut r: Vec<u8> = Vec::new();
    let mut i: usize = 0;
    while i < v.len()
        invariant
            i <= v.len(),
            r@ == v@.take(i as int),
        decreases v.len() - i,
    {
        r.push(v[i]);
        proof {
            assert(v@.take(i as int).push(v@[i as int]) =~= v@.take(i + 1));
        }
        i += 1;
    }
    proof {
        assert(v@.take(v.len() as int) =~= v@);
    }
    r
}


/// The lower-case character for a hexadecimal digit.
pub open spec fn lower_hex_digit(d: int) -> char
    recommends
        0 <= d < 16,
{
    if d < 10 {
        (('0' as u8) + d) as char
    } else {
        (('a' as u8) + (d - 10)) as char
    }
}

/// A number written in lower-case hexadecimal digits, without leading
/// zeros.
pub open spec fn lower_hex_of(n: nat) -> Seq<char>
    decreases n,
{
    if n < 16 {
        seq![lower_hex_digit(n as int)]
    } else {
        lower_hex_of(n / 16).push(lower_hex_digit((n % 16) as int))
    }
}

/// Writes a number in lower-case hexadecimal digits, as [`lower_hex_of`]
/// describes.
pub fn lower_hex_chars(n: u64) -> (r: Vec<char>)
    ensures
        r@ == lower_hex_of(n as nat),
    decreases n,
{
    let d: u8 = (n % 16) as u8;
    let c: char = if d < 10 {
        (48u8 + d) as char
    } else {
        (97u8 + (d - 10)) as char
    };
    if n < 16 {
        let mut r: Vec<char> = Vec::new();
        r.push(c);
        proof {
            assert(r@ =~= seq![lower_hex_digit(n as int)]);
        }
        r
    } else {
        let mut r = lower_hex_chars(n / 16);
        r.push(c);
        r
    }
}


/// Whether two string slices hold the same text.
pub fn same_text(a: &str, b: &str) -> (r: bool)
    ensures
        r == (a@ == b@),
{
    let x = to_chars(a);
    let y = to_chars(b);
    chars_equal(&x, &y)
}

} // verus!
