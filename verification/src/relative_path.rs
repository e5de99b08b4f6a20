//! Portable relative paths: validation, a canonical form with `/` as the
//! separator, and the rendering that is safe to use as a Windows file name.

use std::path::{Path, PathBuf};
use unicode_normalization::UnicodeNormalization;
use vstd::prelude::*;
use vstd::std_specs::cmp::PartialEqSpecImpl;
use vstd::utf8::encode_utf8;
use crate::text::{
    append_number, append_text, copy_chars, decimal_of, from_chars, join, join_chars,
    lemma_join_split,
    lemma_split_join, lemma_split_nonempty, lemma_split_pieces_hold_no_sep, same_text, split,
    split_chars, to_chars, view_all,
};

verus! {

/// The longest path accepted, in bytes of UTF-8.
pub const MAX_PATH_LENGTH: usize = 4096;

/// Why a text is not a relative path.
#[derive(Debug)]
pub enum RelativePathError {
    /// Nothing is left of the path: it is empty or made of `.` and separators only.
    Empty,
    /// The path starts at a root or a drive; holds the composed text.
    Absolute(String),
    /// A component is `..`.
    ParentTraversal,
    /// The path holds a control character other than a tab.
    InvalidCharacters,
    /// The path is longer than `max` bytes.
    TooLong { max: usize, got: usize },
    /// The native path is not valid UTF-8.
    InvalidUtf8,
}

/// The mathematical value of a [`RelativePathError`].
pub enum PathErrorView {
    Empty,
    Absolute(Seq<char>),
    ParentTraversal,
    InvalidCharacters,
    TooLong { max: usize, got: usize },
    InvalidUtf8,
}

/// What a refusal says.
pub open spec fn path_error_text(e: PathErrorView) -> Seq<char> {
    match e {
        PathErrorView::Empty => "path cannot be empty"@,
        PathErrorView::Absolute(text) => "path cannot be absolute: "@ + text,
        PathErrorView::ParentTraversal => "path cannot contain parent directory references (..)"@,
        PathErrorView::InvalidCharacters => "path contains invalid characters"@,
        PathErrorView::TooLong { max, got } => "path is too long (max "@ + decimal_of(max as nat)
            + " bytes, got "@ + decimal_of(got as nat) + ")"@,
        PathErrorView::InvalidUtf8 => "invalid UTF-8 in path"@,
    }
}

impl RelativePathError {
    /// What the refusal says.
    pub fn message(&self) -> (r: String)
        ensures
            r@ == path_error_text(self@),
    {
        match self {
            RelativePathError::Empty => "path cannot be empty".to_owned(),
            RelativePathError::Absolute(text) => {
                let mut out = to_chars("path cannot be absolute: ");
                append_text(&mut out, text.as_str());
                from_chars(&out)
            },
            RelativePathError::ParentTraversal => {
                "path cannot contain parent directory references (..)".to_owned()
            },
            RelativePathError::InvalidCharacters => "path contains invalid characters".to_owned(),
            RelativePathError::TooLong { max, got } => {
                let mut out = to_chars("path is too long (max ");
                append_number(&mut out, *max as u64);
                append_text(&mut out, " bytes, got ");
                append_number(&mut out, *got as u64);
                append_text(&mut out, ")");
                from_chars(&out)
            },
            RelativePathError::InvalidUtf8 => "invalid UTF-8 in path".to_owned(),
        }
    }
}

impl View for RelativePathError {
    type V = PathErrorView;

    open spec fn view(&self) -> PathErrorView {
        match self {
            RelativePathError::Empty => PathErrorView::Empty,
            RelativePathError::Absolute(text) => PathErrorView::Absolute(text@),
            RelativePathError::ParentTraversal => PathErrorView::ParentTraversal,
            RelativePathError::InvalidCharacters => PathErrorView::InvalidCharacters,
            RelativePathError::TooLong { max, got } => PathErrorView::TooLong {
                max: *max,
                got: *got,
            },
            RelativePathError::InvalidUtf8 => PathErrorView::InvalidUtf8,
        }
    }
}

/// The text in Unicode Normalization Form C, as the `unicode-normalization`
/// crate composes it.
pub uninterp spec fn nfc_of(text: Seq<char>) -> Seq<char>;

/// A control character: general category Cc, that is U+0000 to U+001F and
/// U+007F to U+009F.
pub open spec fn is_control(c: char) -> bool {
    (c as u32) <= 0x1f || (0x7f <= (c as u32) && (c as u32) <= 0x9f)
}

/// A character that no path may hold: NUL and the control characters but tab.
pub open spec fn is_forbidden_char(c: char) -> bool {
    c == '\0' || (is_control(c) && c != '\t')
}

/// A character that Windows does not allow in a file name.
pub open spec fn is_windows_forbidden(c: char) -> bool {
    c == '<' || c == '>' || c == ':' || c == '"' || c == '|' || c == '?' || c == '*'
}

/// The text with every backslash turned into a forward slash.
pub open spec fn to_forward_slashes(s: Seq<char>) -> Seq<char> {
    s.map_values(|c: char| if c == '\\' { '/' } else { c })
}

/// A leading `/`, or a `:` in second place as after a drive letter.
pub open spec fn has_absolute_prefix(s: Seq<char>) -> bool {
    (s.len() > 0 && s[0] == '/') || (s.len() > 1 && s[1] == ':')
}

/// Whether some character of the text is forbidden.
pub open spec fn has_forbidden_char(s: Seq<char>) -> bool {
    exists|i: int| 0 <= i < s.len() && is_forbidden_char(#[trigger] s[i])
}

/// The component `..`.
pub open spec fn parent_component() -> Seq<char> {
    seq!['.', '.']
}

/// A component that stays in the canonical form: neither empty nor `.`.
pub open spec fn is_kept_component(c: Seq<char>) -> bool {
    c.len() > 0 && c != seq!['.']
}

/// The components that stay, in their order.
pub open spec fn kept_components(parts: Seq<Seq<char>>) -> Seq<Seq<char>>
    decreases parts.len(),
{
    if parts.len() == 0 {
        Seq::<Seq<char>>::empty()
    } else if is_kept_component(parts.last()) {
        kept_components(parts.drop_last()).push(parts.last())
    } else {
        kept_components(parts.drop_last())
    }
}

/// The number of bytes of the text in UTF-8.
pub open spec fn byte_len(s: Seq<char>) -> nat {
    encode_utf8(s).len()
}

/// What the constructor makes of a text that is already composed: the
/// canonical form, or the reason why there is none.
pub open spec fn canonical_of_composed(composed: Seq<char>) -> Result<Seq<char>, PathErrorView> {
    let normalized = to_forward_slashes(composed);
    let parts = split(normalized, '/');
    let kept = kept_components(parts);
    let joined = join(kept, '/');
    if has_absolute_prefix(normalized) {
        Err(PathErrorView::Absolute(composed))
    } else if has_forbidden_char(normalized) {
        Err(PathErrorView::InvalidCharacters)
    } else if parts.contains(parent_component()) {
        Err(PathErrorView::ParentTraversal)
    } else if kept.len() == 0 {
        Err(PathErrorView::Empty)
    } else if has_absolute_prefix(joined) {
        Err(PathErrorView::Absolute(composed))
    } else if byte_len(joined) > MAX_PATH_LENGTH {
        Err(PathErrorView::TooLong { max: MAX_PATH_LENGTH, got: byte_len(joined) as usize })
    } else {
        Ok(joined)
    }
}

/// A cleaned text is kept only where composing it again changes nothing,
/// so that the constructor gives every path back as it is.
pub open spec fn settled(r: Result<Seq<char>, PathErrorView>) -> Result<Seq<char>, PathErrorView> {
    match r {
        Ok(text) => if nfc_of(text) == text {
            Ok(text)
        } else {
            Err(PathErrorView::InvalidCharacters)
        },
        Err(e) => Err(e),
    }
}

/// What the constructor makes of any text: empty and over-long inputs are
/// refused as they stand, everything else is composed first, cleaned, and
/// kept where it has settled.
pub open spec fn canonical_form(input: Seq<char>) -> Result<Seq<char>, PathErrorView> {
    if input.len() == 0 {
        Err(PathErrorView::Empty)
    } else if byte_len(input) > MAX_PATH_LENGTH {
        Err(PathErrorView::TooLong { max: MAX_PATH_LENGTH, got: byte_len(input) as usize })
    } else {
        settled(canonical_of_composed(nfc_of(input)))
    }
}

/// What holds of every canonical path: it is not empty, fits the length
/// limit, has no absolute prefix, no backslash and no forbidden character,
/// and each of its components is a real name (not empty, `.` or `..`).
pub open spec fn is_canonical(s: Seq<char>) -> bool {
    &&& s.len() > 0
    &&& byte_len(s) <= MAX_PATH_LENGTH
    &&& !has_absolute_prefix(s)
    &&& !has_forbidden_char(s)
    &&& !s.contains('\\')
    &&& forall|k: int|
        0 <= k < split(s, '/').len() ==> is_kept_component(#[trigger] split(s, '/')[k]) && split(
            s,
            '/',
        )[k] != parent_component()
}

proof fn lemma_kept_are_kept(parts: Seq<Seq<char>>)
    ensures
        forall|k: int|
            0 <= k < kept_components(parts).len() ==> is_kept_component(
                #[trigger] kept_components(parts)[k],
            ) && parts.contains(kept_components(parts)[k]),
    decreases parts.len(),
{
    if parts.len() > 0 {
        let front = parts.drop_last();
        lemma_kept_are_kept(front);
        assert forall|k: int| 0 <= k < kept_components(parts).len() implies is_kept_component(
            #[trigger] kept_components(parts)[k],
        ) && parts.contains(kept_components(parts)[k]) by {
            if k < kept_components(front).len() {
                let item = kept_components(front)[k];
                assert(front.contains(item));
                let j = choose|j: int| 0 <= j < front.len() && front[j] == item;
                assert(parts[j] == item);
            } else {
                assert(parts[parts.len() - 1] == parts.last());
            }
        }
    }
}

proof fn lemma_kept_all(parts: Seq<Seq<char>>)
    requires
        forall|k: int| 0 <= k < parts.len() ==> is_kept_component(#[trigger] parts[k]),
    ensures
        kept_components(parts) == parts,
    decreases parts.len(),
{
    if parts.len() > 0 {
        let front = parts.drop_last();
        assert forall|k: int| 0 <= k < front.len() implies is_kept_component(#[trigger] front[k]) by {
            assert(front[k] == parts[k]);
        }
        lemma_kept_all(front);
        assert(front.push(parts.last()) =~= parts);
    } else {
        assert(parts =~= Seq::<Seq<char>>::empty());
    }
}

proof fn lemma_split_chars_from_text(s: Seq<char>, sep: char)
    ensures
        forall|k: int, j: int|
            0 <= k < split(s, sep).len() && 0 <= j < split(s, sep)[k].len() ==> s.contains(
                #[trigger] split(s, sep)[k][j],
            ),
    decreases s.len(),
{
    if s.len() > 0 {
        let rest = s.drop_last();
        let before = split(rest, sep);
        lemma_split_nonempty(rest, sep);
        lemma_split_chars_from_text(rest, sep);
        assert forall|k: int, j: int|
            0 <= k < split(s, sep).len() && 0 <= j < split(s, sep)[k].len() implies s.contains(
            #[trigger] split(s, sep)[k][j],
        ) by {
            let c = split(s, sep)[k][j];
            if s.last() != sep && k == before.len() - 1 && j == before.last().len() {
                assert(s[s.len() - 1] == c);
            } else {
                assert(before[k][j] == c);
                assert(rest.contains(c));
                let i = choose|i: int| 0 <= i < rest.len() && rest[i] == c;
                assert(s[i] == c);
            }
        }
    }
}

proof fn lemma_join_chars_from_parts(parts: Seq<Seq<char>>, sep: char)
    ensures
        forall|i: int|
            0 <= i < join(parts, sep).len() ==> (#[trigger] join(parts, sep)[i]) == sep || exists|
                k: int,
            |
                0 <= k < parts.len() && (#[trigger] parts[k]).contains(join(parts, sep)[i]),
    decreases parts.len(),
{
    if parts.len() == 1 {
        assert forall|i: int| 0 <= i < join(parts, sep).len() implies (#[trigger] join(
            parts,
            sep,
        )[i]) == sep || exists|k: int|
            0 <= k < parts.len() && (#[trigger] parts[k]).contains(join(parts, sep)[i]) by {
            assert(parts[0].contains(parts[0][i]));
        }
    } else if parts.len() > 1 {
        let front = parts.drop_last();
        lemma_join_chars_from_parts(front, sep);
        let head = join(front, sep);
        assert forall|i: int| 0 <= i < join(parts, sep).len() implies (#[trigger] join(
            parts,
            sep,
        )[i]) == sep || exists|k: int|
            0 <= k < parts.len() && (#[trigger] parts[k]).contains(join(parts, sep)[i]) by {
            let c = join(parts, sep)[i];
            if i < head.len() {
                assert(head[i] == c);
                if c != sep {
                    let k = choose|k: int| 0 <= k < front.len() && (#[trigger] front[k]).contains(c);
                    assert(parts[k] == front[k]);
                }
            } else if i > head.len() {
                assert(parts.last()[i - head.len() - 1] == c);
                assert(parts[parts.len() - 1].contains(c));
            }
        }
    }
}

proof fn lemma_join_starts_with_first_piece(parts: Seq<Seq<char>>, sep: char)
    requires
        parts.len() >= 1,
    ensures
        parts[0].is_prefix_of(join(parts, sep)),
        parts.len() > 1 ==> join(parts, sep).len() > parts[0].len() && join(parts, sep)[parts[0].len() as int]
            == sep,
    decreases parts.len(),
{
    if parts.len() > 1 {
        let front = parts.drop_last();
        lemma_join_starts_with_first_piece(front, sep);
        assert(front[0] == parts[0]);
        let head = join(front, sep);
        assert(head.push(sep) + parts.last() == join(parts, sep));
        if front.len() == 1 {
            assert(head == parts[0]);
        }
    }
}

/// A text that the constructor accepts, once composed, is canonical.
pub proof fn lemma_canonical_of_composed_is_canonical(composed: Seq<char>)
    ensures
        canonical_of_composed(composed) matches Ok(c) ==> is_canonical(c),
{
    let normalized = to_forward_slashes(composed);
    let parts = split(normalized, '/');
    let kept = kept_components(parts);
    let c = join(kept, '/');
    if canonical_of_composed(composed) is Ok {
        lemma_kept_are_kept(parts);
        lemma_split_pieces_hold_no_sep(normalized, '/');
        lemma_split_chars_from_text(normalized, '/');
        assert forall|k: int| 0 <= k < kept.len() implies !(#[trigger] kept[k]).contains('/') by {
            let j = choose|j: int| 0 <= j < parts.len() && parts[j] == kept[k];
            assert(!parts[j].contains('/'));
        }
        lemma_split_join(kept, '/');
        lemma_join_chars_from_parts(kept, '/');
        lemma_join_starts_with_first_piece(kept, '/');
        assert(kept[0].len() > 0);
        assert(c.len() > 0);
        assert forall|i: int| 0 <= i < c.len() implies !is_forbidden_char(#[trigger] c[i]) && c[i]
            != '\\' by {
            if c[i] != '/' {
                let k = choose|k: int| 0 <= k < kept.len() && (#[trigger] kept[k]).contains(c[i]);
                let j = choose|j: int| 0 <= j < parts.len() && parts[j] == kept[k];
                let m = choose|m: int| 0 <= m < parts[j].len() && parts[j][m] == c[i];
                assert(normalized.contains(parts[j][m]));
                let n = choose|n: int| 0 <= n < normalized.len() && normalized[n] == c[i];
                assert(!is_forbidden_char(normalized[n]));
            }
        }
        assert(!has_forbidden_char(c));
        assert(!c.contains('\\'));
        assert forall|k: int| 0 <= k < split(c, '/').len() implies is_kept_component(
            #[trigger] split(c, '/')[k],
        ) && split(c, '/')[k] != parent_component() by {
            let j = choose|j: int| 0 <= j < parts.len() && parts[j] == kept[k];
            assert(parts.contains(parts[j]));
        }
    }
}

/// Canonicalization is idempotent on composed text: a canonical path is its
/// own canonical form.
pub proof fn lemma_canonical_fixed_point(c: Seq<char>)
    requires
        is_canonical(c),
    ensures
        canonical_of_composed(c) == Ok::<Seq<char>, PathErrorView>(c),
{
    let normalized = to_forward_slashes(c);
    assert(normalized =~= c) by {
        assert forall|i: int| 0 <= i < c.len() implies c[i] != '\\' by {
            assert(c.contains(c[i]));
        }
    }
    let parts = split(c, '/');
    lemma_kept_all(parts);
    lemma_join_split(c, '/');
    assert(!parts.contains(parent_component())) by {
        if parts.contains(parent_component()) {
            let k = choose|k: int| 0 <= k < parts.len() && parts[k] == parent_component();
            assert(split(c, '/')[k] != parent_component());
        }
    }
    lemma_split_nonempty(c, '/');
}

/// The constructor is idempotent: it accepts every canonical path that
/// composition leaves unchanged, and returns it as it is.
pub proof fn lemma_canonical_form_idempotent(c: Seq<char>)
    requires
        is_canonical(c),
        nfc_of(c) == c,
    ensures
        canonical_form(c) == Ok::<Seq<char>, PathErrorView>(c),
{
    lemma_canonical_fixed_point(c);
}

/// The constructor is idempotent on every text: whatever it accepts, it
/// accepts again in the form that it returned, and returns it unchanged.
pub proof fn lemma_constructor_is_idempotent(input: Seq<char>)
    ensures
        canonical_form(input) matches Ok(c) ==> canonical_form(c) == Ok::<
            Seq<char>,
            PathErrorView,
        >(c),
{
    if canonical_form(input) is Ok {
        let c = canonical_form(input)->Ok_0;
        lemma_canonical_of_composed_is_canonical(nfc_of(input));
        lemma_canonical_form_idempotent(c);
    }
}

/// Two texts with the same composed form, such as the decomposed and the
/// composed spelling of one name, give the same path or the same refusal,
/// as long as both fit the length limit.
pub proof fn lemma_equivalent_spellings_agree(a: Seq<char>, b: Seq<char>)
    requires
        nfc_of(a) == nfc_of(b),
        0 < a.len(),
        0 < b.len(),
        byte_len(a) <= MAX_PATH_LENGTH,
        byte_len(b) <= MAX_PATH_LENGTH,
    ensures
        canonical_form(a) == canonical_form(b),
{
}


/// What a platform finds when it holds a native path against a base.
#[derive(Debug)]
pub enum Remainder {
    /// The path does not lie below the base; `shown` is the path as the
    /// platform displays it.
    Outside { shown: String },
    /// The path lies below the base, but what is left of it is not valid
    /// Unicode.
    NotUnicode,
    /// The path lies below the base; `text` is what is left of it.
    Below { text: String },
}

/// The mathematical value of a [`Remainder`].
pub enum RemainderView {
    Outside { shown: Seq<char> },
    NotUnicode,
    Below { text: Seq<char> },
}

impl View for Remainder {
    type V = RemainderView;

    open spec fn view(&self) -> RemainderView {
        match self {
            Remainder::Outside { shown } => RemainderView::Outside { shown: shown@ },
            Remainder::NotUnicode => RemainderView::NotUnicode,
            Remainder::Below { text } => RemainderView::Below { text: text@ },
        }
    }
}

/// The path, or the refusal, that follows from what a platform found: a
/// path outside the base is refused as absolute, with the path as it was
/// shown; one that is not valid Unicode is refused as such; any other goes
/// the way of every text.
pub open spec fn remainder_form(found: RemainderView) -> Result<Seq<char>, PathErrorView> {
    match found {
        RemainderView::Outside { shown } => Err(PathErrorView::Absolute(shown)),
        RemainderView::NotUnicode => Err(PathErrorView::InvalidUtf8),
        RemainderView::Below { text } => canonical_form(text),
    }
}

/// The mathematical value of what the constructor returns.
pub open spec fn result_view(r: Result<RelativePath, RelativePathError>) -> Result<
    Seq<char>,
    PathErrorView,
> {
    match r {
        Ok(p) => Ok(p@),
        Err(e) => Err(e@),
    }
}

/// The place of the first `c` in `s`, or the length of `s` if there is none.
pub open spec fn first_index_of(s: Seq<char>, c: char) -> int
    decreases s.len(),
{
    if s.len() == 0 {
        0
    } else if s[0] == c {
        0
    } else {
        1 + first_index_of(s.drop_first(), c)
    }
}

/// The part of a name before its first dot.
pub open spec fn base_name(s: Seq<char>) -> Seq<char> {
    s.take(first_index_of(s, '.'))
}

/// The upper-case form of an ASCII letter; any other character unchanged.
pub open spec fn ascii_upper(c: char) -> char {
    if 'a' <= c && c <= 'z' {
        ((c as u32) - 32) as char
    } else {
        c
    }
}

/// Whether `u` is the three letters given.
pub open spec fn is_word3(u: Seq<char>, a: char, b: char, c: char) -> bool {
    u.len() == 3 && u[0] == a && u[1] == b && u[2] == c
}

/// Whether an upper-case name is one of the device names of Windows:
/// `CON`, `PRN`, `AUX`, `NUL`, `COM1` to `COM9`, `LPT1` to `LPT9`.
pub open spec fn is_device_name(u: Seq<char>) -> bool {
    ||| is_word3(u, 'C', 'O', 'N')
    ||| is_word3(u, 'P', 'R', 'N')
    ||| is_word3(u, 'A', 'U', 'X')
    ||| is_word3(u, 'N', 'U', 'L')
    ||| (u.len() == 4 && is_word3(u.take(3), 'C', 'O', 'M') && '1' <= u[3] && u[3] <= '9')
    ||| (u.len() == 4 && is_word3(u.take(3), 'L', 'P', 'T') && '1' <= u[3] && u[3] <= '9')
}

/// Whether the part of `name` before its first dot is, in any letter case,
/// a device name of Windows.
pub open spec fn is_reserved_name(name: Seq<char>) -> bool {
    is_device_name(base_name(name).map_values(|c: char| ascii_upper(c)))
}

/// A character that Windows drops from the end of a name.
pub open spec fn is_trailing_trouble(c: char) -> bool {
    c == '.' || c == ' '
}

/// The text without its trailing dots and spaces.
pub open spec fn trim_end(s: Seq<char>) -> Seq<char>
    decreases s.len(),
{
    if s.len() > 0 && is_trailing_trouble(s.last()) {
        trim_end(s.drop_last())
    } else {
        s
    }
}

/// One component made safe for Windows: a device name gets `_` in front, a
/// name that ends in dots or spaces gets `_` in their place.
pub open spec fn sanitized_component(s: Seq<char>) -> Seq<char> {
    if is_reserved_name(base_name(s)) {
        seq!['_'] + s
    } else if s.len() > 0 && is_trailing_trouble(s.last()) {
        trim_end(s).push('_')
    } else {
        s
    }
}

/// One character made safe for Windows: the separator becomes a backslash,
/// a character that Windows forbids becomes `_`.
pub open spec fn windows_char(c: char) -> char {
    if c == '/' {
        '\\'
    } else if is_windows_forbidden(c) {
        '_'
    } else {
        c
    }
}

/// The rendering of a path that Windows accepts.
pub open spec fn windows_safe(s: Seq<char>) -> Seq<char> {
    join(
        split(s.map_values(|c: char| windows_char(c)), '\\').map_values(
            |part: Seq<char>| sanitized_component(part),
        ),
        '\\',
    )
}

/// Whether Windows cannot hold the path as it stands: a forbidden character
/// or a component that is a device name.
pub open spec fn windows_incompatible(s: Seq<char>) -> bool {
    (exists|i: int| 0 <= i < s.len() && is_windows_forbidden(#[trigger] s[i])) || (exists|k: int|
        0 <= k < split(s, '/').len() && is_reserved_name(#[trigger] split(s, '/')[k]))
}

proof fn lemma_first_index_found(s: Seq<char>, c: char, i: int)
    requires
        0 <= i <= s.len(),
        forall|j: int| 0 <= j < i ==> s[j] != c,
        i == s.len() || s[i] == c,
    ensures
        first_index_of(s, c) == i,
    decreases s.len(),
{
    if s.len() > 0 && i > 0 {
        let rest = s.drop_first();
        assert forall|j: int| 0 <= j < i - 1 implies rest[j] != c by {
            assert(rest[j] == s[j + 1]);
        }
        lemma_first_index_found(rest, c, i - 1);
    }
}

/// A borrowed native path of std, carried through without a look inside.
#[verifier::external_type_specification]
#[verifier::external_body]
pub struct ExPath(Path);

/// An owned native path of std, carried through without a look inside.
#[verifier::external_type_specification]
#[verifier::external_body]
pub struct ExPathBuf(PathBuf);

/// `unicode_normalization`'s `nfc` on a string slice, collected into a
/// `String`: the composed form of the text.
#[verifier::external_body]
fn compose(text: &str) -> (r: String)
    ensures
        r@ == nfc_of(text@),
{
    text.nfc().collect()
}

/// What `Path::strip_prefix` gives for a native path and a base: the rest
/// of the path below the base, where the path lies below it.
pub uninterp spec fn stripped_path_of(path: &Path, base: &Path) -> Option<PathBuf>;

/// `Path::strip_prefix`: the rest of `path` below `base`, where `path` lies
/// below it.
#[verifier::external_body]
fn strip_base(path: &Path, base: &Path) -> (r: Option<PathBuf>)
    ensures
        r == stripped_path_of(path, base),
{
    path.strip_prefix(base).ok().map(|rest| rest.to_path_buf())
}

/// The text that a native path holds, where the path is valid Unicode:
/// what `Path::to_str` gives for it.
pub uninterp spec fn path_text_of(path: PathBuf) -> Option<Seq<char>>;

/// `Path::to_str`: the path as text, where it is valid Unicode.
#[verifier::external_body]
fn path_text(path: &PathBuf) -> (r: Option<String>)
    ensures
        match r {
            Some(text) => path_text_of(*path) == Some(text@),
            None => path_text_of(*path) is None,
        },
{
    path.to_str().map(|text| text.to_owned())
}

/// The text that `Path::display` shows for a native path.
pub uninterp spec fn shown_path_of(path: &Path) -> Seq<char>;

/// `Path::display`, written out.
#[verifier::external_body]
fn path_shown(path: &Path) -> (r: String)
    ensures
        r@ == shown_path_of(path),
{
    path.display().to_string()
}

/// What the platform finds when it holds `path` against `base`.
pub open spec fn found_of(path: &Path, base: &Path) -> RemainderView {
    match stripped_path_of(path, base) {
        None => RemainderView::Outside { shown: shown_path_of(path) },
        Some(rest) => match path_text_of(rest) {
            None => RemainderView::NotUnicode,
            Some(text) => RemainderView::Below { text },
        },
    }
}

/// `PathBuf::from` on a `String`: the path that holds the text, so that
/// `Path::to_str` gives the text back.
#[verifier::external_body]
fn native_path(text: String) -> (r: PathBuf)
    ensures
        path_text_of(r) == Some(text@),
{
    PathBuf::from(text)
}

/// The native path that `Path::join` gives for a base and a path to put
/// below it.
pub uninterp spec fn joined_path_of(base: &Path, rest: PathBuf) -> PathBuf;

/// `Path::join`.
#[verifier::external_body]
fn path_below(base: &Path, rest: &PathBuf) -> (r: PathBuf)
    ensures
        r == joined_path_of(base, *rest),
{
    base.join(rest)
}

/// `std::path::is_separator` on a backslash: whether this platform splits
/// paths the way Windows does.
#[verifier::external_body]
pub(crate) fn backslash_separates() -> bool {
    std::path::is_separator('\\')
}

fn is_control_char(c: char) -> (r: bool)
    ensures
        r == is_control(c),
{
    let n: u32 = c as u32;
    n <= 0x1f || (0x7f <= n && n <= 0x9f)
}

fn forbidden_windows_char(c: char) -> (r: bool)
    ensures
        r == is_windows_forbidden(c),
{
    c == '<' || c == '>' || c == ':' || c == '"' || c == '|' || c == '?' || c == '*'
}

fn upper(c: char) -> (r: char)
    ensures
        r == ascii_upper(c),
{
    if 'a' <= c && c <= 'z' {
        ((c as u8) - 32) as char
    } else {
        c
    }
}

fn forward_slashes(chars: &Vec<char>) -> (r: Vec<char>)
    ensures
        r@ == to_forward_slashes(chars@),
{
    let mut r: Vec<char> = Vec::new();
    let mut i: usize = 0;
    while i < chars.len()
        invariant
            i <= chars.len(),
            r@ == to_forward_slashes(chars@).take(i as int),
        decreases chars.len() - i,
    {
        let c = chars[i];
        if c == '\\' {
            r.push('/');
        } else {
            r.push(c);
        }
        proof {
            let whole = to_forward_slashes(chars@);
            assert(whole.take(i as int).push(whole[i as int]) =~= whole.take(i + 1));
        }
        i += 1;
    }
    proof {
        let whole = to_forward_slashes(chars@);
        assert(whole.take(chars.len() as int) =~= whole);
    }
    r
}

fn holds_forbidden_char(chars: &Vec<char>) -> (r: bool)
    ensures
        r == has_forbidden_char(chars@),
{
    let mut i: usize = 0;
    while i < chars.len()
        invariant
            i <= chars.len(),
            forall|j: int| 0 <= j < i ==> !is_forbidden_char(#[trigger] chars@[j]),
        decreases chars.len() - i,
    {
        let c = chars[i];
        if c == '\0' || (is_control_char(c) && c != '\t') {
            return true;
        }
        i += 1;
    }
    false
}

fn starts_absolute(chars: &Vec<char>) -> (r: bool)
    ensures
        r == has_absolute_prefix(chars@),
{
    (chars.len() > 0 && chars[0] == '/') || (chars.len() > 1 && chars[1] == ':')
}

fn is_dot(part: &Vec<char>) -> (r: bool)
    ensures
        r == (part@ == seq!['.']),
{
    let r = part.len() == 1 && part[0] == '.';
    proof {
        if r {
            assert(part@ =~= seq!['.']);
        }
    }
    r
}

fn is_dot_dot(part: &Vec<char>) -> (r: bool)
    ensures
        r == (part@ == parent_component()),
{
    let r = part.len() == 2 && part[0] == '.' && part[1] == '.';
    proof {
        if r {
            assert(part@ =~= parent_component());
        }
    }
    r
}

fn byte_length(text: &str) -> (n: usize)
    ensures
        n == byte_len(text@),
{
    text.as_bytes().len()
}

/// The part of `name` before its first dot.
fn base_chars(name: &Vec<char>) -> (r: Vec<char>)
    ensures
        r@ == base_name(name@),
{
    let mut r: Vec<char> = Vec::new();
    let mut i: usize = 0;
    while i < name.len() && name[i] != '.'
        invariant
            i <= name.len(),
            r@ == name@.take(i as int),
            forall|j: int| 0 <= j < i ==> name@[j] != '.',
        decreases name.len() - i,
    {
        r.push(name[i]);
        proof {
            assert(name@.take(i as int).push(name@[i as int]) =~= name@.take(i + 1));
        }
        i += 1;
    }
    proof {
        lemma_first_index_found(name@, '.', i as int);
    }
    r
}

fn reserved_chars(name: &Vec<char>) -> (r: bool)
    ensures
        r == is_reserved_name(name@),
{
    let base = base_chars(name);
    let ghost u = base@.map_values(|c: char| ascii_upper(c));
    if base.len() == 3 {
        let a = upper(base[0]);
        let b = upper(base[1]);
        let c = upper(base[2]);
        proof {
            assert(u[0] == a && u[1] == b && u[2] == c);
        }
        (a == 'C' && b == 'O' && c == 'N') || (a == 'P' && b == 'R' && c == 'N') || (a == 'A' && b
            == 'U' && c == 'X') || (a == 'N' && b == 'U' && c == 'L')
    } else if base.len() == 4 {
        let a = upper(base[0]);
        let b = upper(base[1]);
        let c = upper(base[2]);
        let d = upper(base[3]);
        proof {
            assert(u[0] == a && u[1] == b && u[2] == c && u[3] == d);
            assert(u.take(3)[0] == a && u.take(3)[1] == b && u.take(3)[2] == c);
        }
        ((a == 'C' && b == 'O' && c == 'M') || (a == 'L' && b == 'P' && c == 'T')) && '1' <= d && d
            <= '9'
    } else {
        false
    }
}

fn sanitize_chars(part: &Vec<char>) -> (r: Vec<char>)
    ensures
        r@ == sanitized_component(part@),
{
    let base = base_chars(part);
    if reserved_chars(&base) {
        let mut r: Vec<char> = Vec::new();
        r.push('_');
        let mut i: usize = 0;
        while i < part.len()
            invariant
                i <= part.len(),
                r@ == seq!['_'] + part@.take(i as int),
            decreases part.len() - i,
        {
            r.push(part[i]);
            proof {
                assert(part@.take(i as int).push(part@[i as int]) =~= part@.take(i + 1));
            }
            i += 1;
        }
        proof {
            assert(part@.take(part.len() as int) =~= part@);
        }
        r
    } else if part.len() > 0 && (part[part.len() - 1] == '.' || part[part.len() - 1] == ' ') {
        let mut end: usize = part.len();
        proof {
            assert(part@.take(part.len() as int) =~= part@);
        }
        while end > 0 && (part[end - 1] == '.' || part[end - 1] == ' ')
            invariant
                end <= part.len(),
                trim_end(part@) == trim_end(part@.take(end as int)),
            decreases end,
        {
            proof {
                assert(part@.take(end as int).drop_last() =~= part@.take(end - 1));
            }
            end -= 1;
        }
        proof {
            assert(part@.take(part.len() as int) =~= part@);
        }
        let mut r: Vec<char> = Vec::new();
        let mut i: usize = 0;
        while i < end
            invariant
                i <= end <= part.len(),
                r@ == part@.take(i as int),
            decreases end - i,
        {
            r.push(part[i]);
            proof {
                assert(part@.take(i as int).push(part@[i as int]) =~= part@.take(i + 1));
            }
            i += 1;
        }
        r.push('_');
        r
    } else {
        copy_chars(part)
    }
}

fn windows_safe_chars(chars: &Vec<char>) -> (r: Vec<char>)
    ensures
        r@ == windows_safe(chars@),
{
    let mut mapped: Vec<char> = Vec::new();
    let ghost target = chars@.map_values(|c: char| windows_char(c));
    let mut i: usize = 0;
    while i < chars.len()
        invariant
            i <= chars.len(),
            target == chars@.map_values(|c: char| windows_char(c)),
            mapped@ == target.take(i as int),
        decreases chars.len() - i,
    {
        let c = chars[i];
        if c == '/' {
            mapped.push('\\');
        } else if forbidden_windows_char(c) {
            mapped.push('_');
        } else {
            mapped.push(c);
        }
        proof {
            assert(target.take(i as int).push(target[i as int]) =~= target.take(i + 1));
        }
        i += 1;
    }
    proof {
        assert(target.take(chars.len() as int) =~= target);
    }
    let parts = split_chars(&mapped, '\\');
    let ghost wanted = view_all(parts@).map_values(|part: Seq<char>| sanitized_component(part));
    let mut safe: Vec<Vec<char>> = Vec::new();
    let mut k: usize = 0;
    while k < parts.len()
        invariant
            k <= parts.len(),
            wanted == view_all(parts@).map_values(|part: Seq<char>| sanitized_component(part)),
            view_all(safe@) == wanted.take(k as int),
        decreases parts.len() - k,
    {
        let piece = sanitize_chars(&parts[k]);
        safe.push(piece);
        proof {
            assert(view_all(safe@) =~= wanted.take(k as int).push(wanted[k as int]));
            assert(wanted.take(k as int).push(wanted[k as int]) =~= wanted.take(k + 1));
        }
        k += 1;
    }
    proof {
        assert(wanted.take(parts.len() as int) =~= wanted);
    }
    join_chars(&safe, '\\')
}

/// Whether the part of `name` before its first dot is, in any letter case,
/// one of the device names of Windows.
pub fn is_windows_reserved(name: &str) -> (r: bool)
    ensures
        r == is_reserved_name(name@),
{
    let chars = to_chars(name);
    reserved_chars(&chars)
}

/// One path component made safe for Windows.
pub fn sanitize_windows_component(component: &str) -> (r: String)
    ensures
        r@ == sanitized_component(component@),
{
    let chars = to_chars(component);
    let safe = sanitize_chars(&chars);
    from_chars(&safe)
}

/// A validated relative path, held in canonical form.
#[derive(Debug, Eq, PartialOrd, Ord, Hash)]
pub struct RelativePath(String);

impl View for RelativePath {
    type V = Seq<char>;

    closed spec fn view(&self) -> Seq<char> {
        self.0@
    }
}

impl PartialEq for RelativePath {
    fn eq(&self, other: &Self) -> (r: bool) {
        self.0 == other.0
    }
}

impl PartialEqSpecImpl for RelativePath {
    open spec fn obeys_eq_spec() -> bool {
        true
    }

    open spec fn eq_spec(&self, other: &Self) -> bool {
        self@ == other@
    }
}

impl Clone for RelativePath {
    fn clone(&self) -> (r: Self)
        ensures
            r@ == self@,
    {
        proof {
            use_type_invariant(self);
        }
        RelativePath(self.0.clone())
    }
}

impl AsRef<str> for RelativePath {
    fn as_ref(&self) -> (s: &str)
        ensures
            s@ == self@,
    {
        self.0.as_str()
    }
}

/// The mathematical value of what cleaning a composed text returns.
pub open spec fn cleaned_view(r: Result<String, RelativePathError>) -> Result<
    Seq<char>,
    PathErrorView,
> {
    match r {
        Ok(text) => Ok(text@),
        Err(e) => Err(e@),
    }
}

/// Cleans a text that is already composed: backslashes become `/`, empty
/// and `.` components go, and what must not stand in a relative path is
/// refused. The result is the canonical form, or the reason why there is
/// none.
pub fn clean_composed(composed: &str) -> (r: Result<String, RelativePathError>)
    ensures
        cleaned_view(r) == canonical_of_composed(composed@),
        r matches Ok(text) ==> is_canonical(text@),
{
    let chars = to_chars(composed);
    let normalized = forward_slashes(&chars);
    if starts_absolute(&normalized) {
        return Err(RelativePathError::Absolute(composed.to_owned()));
    }
    if holds_forbidden_char(&normalized) {
        return Err(RelativePathError::InvalidCharacters);
    }
    let parts = split_chars(&normalized, '/');
    let ghost all = view_all(parts@);
    let mut clean: Vec<Vec<char>> = Vec::new();
    let mut i: usize = 0;
    proof {
        assert(all.take(0) =~= Seq::<Seq<char>>::empty());
    }
    while i < parts.len()
        invariant
            i <= parts.len(),
            all == view_all(parts@),
            all == split(normalized@, '/'),
            normalized@ == to_forward_slashes(composed@),
            !has_absolute_prefix(normalized@),
            !has_forbidden_char(normalized@),
            view_all(clean@) == kept_components(all.take(i as int)),
            forall|j: int| 0 <= j < i ==> #[trigger] all[j] != parent_component(),
        decreases parts.len() - i,
    {
        let part = &parts[i];
        proof {
            assert(all[i as int] == part@);
            assert(all.take(i + 1).drop_last() =~= all.take(i as int));
            assert(all.take(i + 1).last() == part@);
        }
        if is_dot_dot(part) {
            proof {
                assert(all[i as int] == parent_component());
                assert(all.contains(parent_component()));
            }
            return Err(RelativePathError::ParentTraversal);
        }
        if part.len() > 0 && !is_dot(part) {
            let ghost before = view_all(clean@);
            clean.push(copy_chars(part));
            proof {
                assert(view_all(clean@) =~= before.push(part@));
            }
        }
        i += 1;
    }
    proof {
        assert(all.take(parts.len() as int) =~= all);
    }
    if clean.len() == 0 {
        return Err(RelativePathError::Empty);
    }
    let joined = join_chars(&clean, '/');
    if starts_absolute(&joined) {
        return Err(RelativePathError::Absolute(composed.to_owned()));
    }
    let text = from_chars(&joined);
    let size = byte_length(text.as_str());
    if size > MAX_PATH_LENGTH {
        return Err(RelativePathError::TooLong { max: MAX_PATH_LENGTH, got: size });
    }
    proof {
        lemma_canonical_of_composed_is_canonical(composed@);
    }
    Ok(text)
}

impl RelativePath {
    #[verifier::type_invariant]
    closed spec fn canonical(self) -> bool {
        is_canonical(self.0@) && nfc_of(self.0@) == self.0@
    }

    /// Validates a text and brings it into canonical form: composed, with
    /// `/` as the separator and without empty or `.` components. The
    /// constructor is idempotent: what it returns, it returns again when
    /// it is given the path's own text.
    pub fn new(path: &str) -> (r: Result<RelativePath, RelativePathError>)
        ensures
            result_view(r) == canonical_form(path@),
            r matches Ok(p) ==> is_canonical(p@),
            r matches Ok(p) ==> canonical_form(p@) == Ok::<Seq<char>, PathErrorView>(p@),
    {
        if path.is_empty() {
            return Err(RelativePathError::Empty);
        }
        let got = byte_length(path);
        if got > MAX_PATH_LENGTH {
            return Err(RelativePathError::TooLong { max: MAX_PATH_LENGTH, got });
        }
        let composed = compose(path);
        let text = match clean_composed(composed.as_str()) {
            Ok(text) => text,
            Err(e) => {
                return Err(e);
            },
        };
        let again = compose(text.as_str());
        if !same_text(again.as_str(), text.as_str()) {
            return Err(RelativePathError::InvalidCharacters);
        }
        proof {
            lemma_canonical_form_idempotent(text@);
        }
        Ok(RelativePath(text))
    }

    /// The path, or the refusal, for what a platform found of a native
    /// path below a base.
    pub fn from_remainder(found: Remainder) -> (r: Result<RelativePath, RelativePathError>)
        ensures
            result_view(r) == remainder_form(found@),
            r matches Ok(p) ==> is_canonical(p@),
    {
        match found {
            Remainder::Outside { shown } => Err(RelativePathError::Absolute(shown)),
            Remainder::NotUnicode => Err(RelativePathError::InvalidUtf8),
            Remainder::Below { text } => Self::new(text.as_str()),
        }
    }

    /// The path of `path` below `base`, validated: what
    /// [`RelativePath::from_remainder`] makes of what the platform finds
    /// when it holds `path` against `base`.
    pub fn from_path(path: &Path, base: &Path) -> (r: Result<RelativePath, RelativePathError>)
        ensures
            result_view(r) == remainder_form(found_of(path, base)),
            r matches Ok(p) ==> is_canonical(p@),
    {
        let found = match strip_base(path, base) {
            None => Remainder::Outside { shown: path_shown(path) },
            Some(rest) => match path_text(&rest) {
                None => Remainder::NotUnicode,
                Some(text) => Remainder::Below { text },
            },
        };
        proof {
            assert(found@ == found_of(path, base));
        }
        Self::from_remainder(found)
    }

    /// The canonical text, which the constructor gives back as it is.
    pub fn as_str(&self) -> (s: &str)
        ensures
            s@ == self@,
            is_canonical(s@),
            canonical_form(s@) == Ok::<Seq<char>, PathErrorView>(self@),
    {
        proof {
            use_type_invariant(self);
            lemma_canonical_form_idempotent(self.0@);
        }
        self.0.as_str()
    }

    /// A copy of the canonical text, which the constructor gives back as
    /// it is.
    pub fn to_string(&self) -> (s: String)
        ensures
            s@ == self@,
            canonical_form(s@) == Ok::<Seq<char>, PathErrorView>(self@),
    {
        proof {
            use_type_invariant(self);
            lemma_canonical_form_idempotent(self.0@);
        }
        self.0.clone()
    }

    /// The path as a native `PathBuf`: the path that holds the rendering
    /// of this platform, which is the safe rendering on Windows and the
    /// canonical text elsewhere.
    pub fn to_path_buf(&self) -> (r: PathBuf)
        ensures
            path_text_of(r) == Some(self@) || path_text_of(r) == Some(windows_safe(self@)),
    {
        native_path(self.to_native_string())
    }

    /// The path as this platform writes it: on Windows the safe rendering,
    /// elsewhere the canonical text.
    pub fn to_native_string(&self) -> (r: String)
        ensures
            r@ == self@ || r@ == windows_safe(self@),
    {
        self.native_string_for(backslash_separates())
    }

    /// The path as a platform writes it: with `windows` the safe rendering,
    /// without it the canonical text.
    pub fn native_string_for(&self, windows: bool) -> (r: String)
        ensures
            r@ == (if windows {
                windows_safe(self@)
            } else {
                self@
            }),
    {
        if windows {
            self.to_windows_safe()
        } else {
            self.0.clone()
        }
    }

    /// The rendering that Windows accepts: backslashes between components,
    /// `_` for each forbidden character and in front of each device name.
    pub fn to_windows_safe(&self) -> (r: String)
        ensures
            r@ == windows_safe(self@),
    {
        let chars = to_chars(self.0.as_str());
        let safe = windows_safe_chars(&chars);
        from_chars(&safe)
    }

    /// The native path below `base`: what the platform gives for `base`
    /// joined with the native path that holds this platform's rendering.
    pub fn resolve(&self, base: &Path) -> (r: PathBuf)
        ensures
            exists|rest: PathBuf|
                r == #[trigger] joined_path_of(base, rest) && (path_text_of(rest) == Some(self@)
                    || path_text_of(rest) == Some(windows_safe(self@))),
    {
        let rest = self.to_path_buf();
        let r = path_below(base, &rest);
        proof {
            assert(r == joined_path_of(base, rest));
        }
        r
    }

    /// Whether Windows cannot hold the path as it stands.
    pub fn has_windows_incompatible_chars(&self) -> (r: bool)
        ensures
            r == windows_incompatible(self@),
    {
        let chars = to_chars(self.0.as_str());
        let mut i: usize = 0;
        while i < chars.len()
            invariant
                i <= chars.len(),
                chars@ == self@,
                forall|j: int| 0 <= j < i ==> !is_windows_forbidden(#[trigger] chars@[j]),
            decreases chars.len() - i,
        {
            if forbidden_windows_char(chars[i]) {
                proof {
                    assert(is_windows_forbidden(self@[i as int]));
                }
                return true;
            }
            i += 1;
        }
        let parts = split_chars(&chars, '/');
        let mut k: usize = 0;
        while k < parts.len()
            invariant
                k <= parts.len(),
                chars@ == self@,
                view_all(parts@) == split(chars@, '/'),
                forall|j: int| 0 <= j < k ==> !is_reserved_name(#[trigger] split(chars@, '/')[j]),
            decreases parts.len() - k,
        {
            proof {
                assert(view_all(parts@)[k as int] == parts@[k as int]@);
            }
            if reserved_chars(&parts[k]) {
                proof {
                    assert(is_reserved_name(split(self@, '/')[k as int]));
                }
                return true;
            }
            k += 1;
        }
        false
    }

    /// The last component.
    pub fn file_name(&self) -> (r: Option<&str>)
        ensures
            r matches Some(name) && name@ == split(self@, '/').last(),
    {
        let text = self.0.as_str();
        let chars = to_chars(text);
        let mut start: usize = 0;
        let mut i: usize = 0;
        proof {
            assert(chars@.take(0) =~= Seq::<char>::empty());
            assert(chars@.subrange(0, 0) =~= Seq::<char>::empty());
        }
        while i < chars.len()
            invariant
                start <= i <= chars.len(),
                split(chars@.take(i as int), '/').last() == chars@.subrange(start as int, i as int),
            decreases chars.len() - i,
        {
            proof {
                lemma_split_nonempty(chars@.take(i as int), '/');
                assert(chars@.take(i + 1).drop_last() =~= chars@.take(i as int));
                assert(chars@.subrange(start as int, i as int).push(chars@[i as int])
                    =~= chars@.subrange(start as int, i + 1));
                assert(chars@.subrange(i + 1, i + 1) =~= Seq::<char>::empty());
            }
            if chars[i] == '/' {
                start = i + 1;
            }
            i += 1;
        }
        proof {
            assert(chars@.take(chars.len() as int) =~= chars@);
        }
        Some(text.substring_char(start, chars.len()))
    }

    /// This path with `other` below it, validated anew.
    pub fn join(&self, other: &str) -> (r: Result<RelativePath, RelativePathError>)
        ensures
            result_view(r) == canonical_form(self@.push('/') + other@),
            r matches Ok(p) ==> is_canonical(p@),
    {
        let mut chars = to_chars(self.0.as_str());
        chars.push('/');
        let rest = to_chars(other);
        let ghost start = chars@;
        let mut i: usize = 0;
        while i < rest.len()
            invariant
                i <= rest.len(),
                chars@ == start + rest@.take(i as int),
            decreases rest.len() - i,
        {
            chars.push(rest[i]);
            proof {
                assert(rest@.take(i as int).push(rest@[i as int]) =~= rest@.take(i + 1));
            }
            i += 1;
        }
        proof {
            assert(rest@.take(rest.len() as int) =~= rest@);
        }
        let text = from_chars(&chars);
        Self::new(text.as_str())
    }
}

} // verus!
