//! Text as the reader handles it: characters and their UTF-8 bytes,
//! character boundaries, trimming, ASCII case, substring search, lines and
//! decimal numbers, each specified as `str`'s own operations behave.

use vstd::prelude::*;
use vstd::utf8::*;
use vstd::string::StringSliceAdditionalSpecFns;

verus! {

broadcast use vstd::slice::group_slice_axioms, vstd::string::group_string_axioms;

/// Byte offset `r` is the character boundary that directly precedes
/// boundary `index` (or `index` itself when that is the start).
pub open spec fn is_previous_boundary(bytes: Seq<u8>, index: int, r: int) -> bool {
    &&& is_char_boundary(bytes, r)
    &&& 0 <= r <= index
    &&& (index > 0 ==> r < index)
    &&& forall|j: int| r < j < index ==> !is_char_boundary(bytes, j)
}

/// Byte offset `r` is the character boundary that directly follows
/// boundary `index`, or `index` itself when that is the end of the text.
pub open spec fn is_next_boundary(bytes: Seq<u8>, index: int, r: int) -> bool {
    &&& is_char_boundary(bytes, r)
    &&& index <= r <= bytes.len()
    &&& (index < bytes.len() ==> index < r)
    &&& forall|j: int| index < j < r ==> !is_char_boundary(bytes, j)
}

/// The byte offset of the character that ends at `index` in `value`.
pub fn previous_char_boundary(value: &str, index: usize) -> (r: usize)
    requires
        is_char_boundary(value.spec_bytes(), index as int),
    ensures
        is_previous_boundary(value.spec_bytes(), index as int, r as int),
{
    broadcast use encode_utf8_valid_utf8;

    let ghost bytes = value.spec_bytes();
    assert(valid_utf8(bytes));
    if index == 0 {
        return 0;
    }
    let mut i: usize = index - 1;
    while !value.is_char_boundary(i)
        invariant
            bytes == value.spec_bytes(),
            valid_utf8(bytes),
            i < index,
            forall|j: int| i < j < index ==> !is_char_boundary(bytes, j),
        decreases i,
    {
        i = i - 1;
    }
    i
}


/// The byte offset just past the character that starts at `index` in
/// `value`, or `index` itself at the end of the text.
pub fn next_char_boundary(value: &str, index: usize) -> (r: usize)
    requires
        is_char_boundary(value.spec_bytes(), index as int),
    ensures
        is_next_boundary(value.spec_bytes(), index as int, r as int),
{
    broadcast use encode_utf8_valid_utf8, is_char_boundary_start_end_of_seq;

    let ghost bytes = value.spec_bytes();
    assert(valid_utf8(bytes));
    let len = value.as_bytes().len();
    if index >= len {
        return index;
    }
    assert(is_char_boundary(bytes, bytes.len() as int));
    let mut j: usize = index + 1;
    while !value.is_char_boundary(j)
        invariant
            bytes == value.spec_bytes(),
            valid_utf8(bytes),
            len == bytes.len(),
            index < j <= len,
            is_char_boundary(bytes, len as int),
            forall|k: int| index < k < j ==> !is_char_boundary(bytes, k),
        decreases len - j,
    {
        j = j + 1;
    }
    j
}

/// Moving the cursor one character back and then one character forward
/// returns it to where it was.
pub proof fn lemma_next_undoes_previous(bytes: Seq<u8>, index: int, previous: int)
    requires
        valid_utf8(bytes),
        is_char_boundary(bytes, index),
        index > 0,
        is_previous_boundary(bytes, index, previous),
    ensures
        is_next_boundary(bytes, previous, index),
{
}

/// Moving the cursor one character forward and then one character back
/// returns it to where it was.
pub proof fn lemma_previous_undoes_next(bytes: Seq<u8>, index: int, next: int)
    requires
        valid_utf8(bytes),
        is_char_boundary(bytes, index),
        index < bytes.len(),
        is_next_boundary(bytes, index, next),
    ensures
        is_previous_boundary(bytes, next, index),
{
}

/// There is only one boundary before and one after a given boundary, so
/// both cursor moves are deterministic.
pub proof fn lemma_boundary_moves_unique(bytes: Seq<u8>, index: int, a: int, b: int)
    ensures
        is_previous_boundary(bytes, index, a) && is_previous_boundary(bytes, index, b) ==> a == b,
        is_next_boundary(bytes, index, a) && is_next_boundary(bytes, index, b) ==> a == b,
{
}


/// The text of an optional string.
pub open spec fn opt_text(s: Option<String>) -> Option<Seq<char>> {
    match s {
        Some(v) => Some(v@),
        None => None,
    }
}

/// The text of an optional string slice.
pub open spec fn text_of(s: Option<&str>) -> Option<Seq<char>> {
    match s {
        Some(v) => Some(v@),
        None => None,
    }
}

/// Appends one character to a string.
///
/// Trusted: calls `String::push`, whose documentation says it appends the
/// given `char` to the end of the `String`.
#[verifier::external_body]
pub(crate) fn push_char(s: &mut String, c: char)
    ensures
        final(s)@ == old(s)@.push(c),
{
    s.push(c);
}

/// The characters of `s`, in order.
pub fn chars_of(s: &str) -> (v: Vec<char>)
    ensures
        v@ == s@,
{
    let mut v: Vec<char> = Vec::new();
    for c in iter: s.chars()
        invariant
            v@ == iter.seq().take(iter.index() as int),
    {
        v.push(c);
    }
    v
}

/// A string holding exactly the characters of `chars`.
pub fn string_of(chars: &[char]) -> (r: String)
    ensures
        r@ == chars@,
{
    let mut r = String::new();
    let mut i: usize = 0;
    while i < chars.len()
        invariant
            i <= chars@.len(),
            r@ == chars@.take(i as int),
        decreases chars@.len() - i,
    {
        push_char(&mut r, chars[i]);
        assert(chars@.take(i + 1) =~= chars@.take(i as int).push(chars@[i as int]));
        i = i + 1;
    }
    assert(chars@.take(i as int) =~= chars@);
    r
}


/// The code points with the Unicode `White_Space` property, the set that
/// `char::is_whitespace` and `str::trim` use.
pub open spec fn is_white_space(c: char) -> bool {
    let u = c as u32;
    ||| 0x09 <= u <= 0x0D
    ||| u == 0x20
    ||| u == 0x85
    ||| u == 0xA0
    ||| u == 0x1680
    ||| 0x2000 <= u <= 0x200A
    ||| u == 0x2028
    ||| u == 0x2029
    ||| u == 0x202F
    ||| u == 0x205F
    ||| u == 0x3000
}

/// Whether `c` is white space, as `char::is_whitespace` says.
pub fn white_space(c: char) -> (r: bool)
    ensures
        r == is_white_space(c),
{
    let u = c as u32;
    (0x09 <= u && u <= 0x0D) || u == 0x20 || u == 0x85 || u == 0xA0 || u == 0x1680 || (0x2000
        <= u && u <= 0x200A) || u == 0x2028 || u == 0x2029 || u == 0x202F || u == 0x205F || u
        == 0x3000
}

/// `s` without its leading white space.
pub open spec fn trim_start(s: Seq<char>) -> Seq<char>
    decreases s.len(),
{
    if s.len() > 0 && is_white_space(s[0]) {
        trim_start(s.drop_first())
    } else {
        s
    }
}

/// `s` without its trailing white space.
pub open spec fn trim_end(s: Seq<char>) -> Seq<char>
    decreases s.len(),
{
    if s.len() > 0 && is_white_space(s.last()) {
        trim_end(s.drop_last())
    } else {
        s
    }
}

/// `s` without leading and trailing white space, as `str::trim` gives it.
pub open spec fn trim(s: Seq<char>) -> Seq<char> {
    trim_end(trim_start(s))
}

proof fn lemma_trim_start_skip(s: Seq<char>, a: int)
    requires
        0 <= a <= s.len(),
        forall|k: int| 0 <= k < a ==> is_white_space(s[k]),
        a == s.len() || !is_white_space(s[a]),
    ensures
        trim_start(s) == s.skip(a),
    decreases a,
{
    if a == 0 {
        assert(s.skip(0) =~= s);
    } else {
        let t = s.drop_first();
        assert forall|k: int| 0 <= k < a - 1 implies is_white_space(t[k]) by {
            assert(t[k] == s[k + 1]);
        }
        lemma_trim_start_skip(t, a - 1);
        assert(t.skip(a - 1) =~= s.skip(a));
    }
}

proof fn lemma_trim_end_take(s: Seq<char>, b: int)
    requires
        0 <= b <= s.len(),
        forall|k: int| b <= k < s.len() ==> is_white_space(s[k]),
        b == 0 || !is_white_space(s[b - 1]),
    ensures
        trim_end(s) == s.take(b),
    decreases s.len() - b,
{
    if b == s.len() {
        assert(s.take(b) =~= s);
    } else {
        let t = s.drop_last();
        assert forall|k: int| b <= k < t.len() implies is_white_space(t[k]) by {
            assert(t[k] == s[k]);
        }
        lemma_trim_end_take(t, b);
        assert(t.take(b) =~= s.take(b));
    }
}

/// The white-space-free middle of `s`.
pub fn trim_chars(s: &[char]) -> (r: Vec<char>)
    ensures
        r@ == trim(s@),
{
    let len = s.len();
    let mut a: usize = 0;
    while a < len && white_space(s[a])
        invariant
            a <= len,
            len == s@.len(),
            forall|k: int| 0 <= k < a ==> is_white_space(s@[k]),
        decreases len - a,
    {
        a = a + 1;
    }
    proof {
        lemma_trim_start_skip(s@, a as int);
    }
    let ghost t = s@.skip(a as int);
    let mut b: usize = len;
    while b > a && white_space(s[b - 1])
        invariant
            a <= b <= len,
            len == s@.len(),
            forall|k: int| b <= k < len ==> is_white_space(s@[k]),
        decreases b,
    {
        b = b - 1;
    }
    proof {
        assert forall|k: int| (b - a) <= k < t.len() implies is_white_space(t[k]) by {
            assert(t[k] == s@[k + a]);
        }
        if b > a {
            assert(t[b - a - 1] == s@[b - 1]);
        }
        lemma_trim_end_take(t, b - a);
    }
    let mut r: Vec<char> = Vec::new();
    let mut i: usize = a;
    while i < b
        invariant
            a <= i <= b <= len,
            len == s@.len(),
            r@ == s@.subrange(a as int, i as int),
        decreases b - i,
    {
        r.push(s[i]);
        assert(s@.subrange(a as int, i + 1) =~= s@.subrange(a as int, i as int).push(s@[i as int]));
        i = i + 1;
    }
    assert(r@ =~= t.take(b - a));
    r
}

/// `s` without its trailing white space, as `str::trim_end` gives it.
pub fn trim_end_chars(s: &[char]) -> (r: Vec<char>)
    ensures
        r@ == trim_end(s@),
{
    let mut b: usize = s.len();
    while b > 0 && white_space(s[b - 1])
        invariant
            b <= s@.len(),
            forall|k: int| b <= k < s@.len() ==> is_white_space(s@[k]),
        decreases b,
    {
        b = b - 1;
    }
    proof {
        lemma_trim_end_take(s@, b as int);
    }
    let r = sub_chars(s, 0, b);
    assert(r@ =~= s@.take(b as int));
    r
}

/// ASCII `a`..`z` mapped to `A`..`Z`; every other character is unchanged.
pub open spec fn ascii_upper(c: char) -> char {
    if 'a' <= c && c <= 'z' {
        ((c as u32) - 32) as char
    } else {
        c
    }
}

/// `s` with ASCII small letters raised, as `str::to_ascii_uppercase` gives it.
pub open spec fn ascii_uppercase(s: Seq<char>) -> Seq<char> {
    s.map_values(|c: char| ascii_upper(c))
}

fn upper_ascii_char(c: char) -> (r: char)
    ensures
        r == ascii_upper(c),
{
    if 'a' <= c && c <= 'z' {
        let b = (c as u8) - 32;
        b as char
    } else {
        c
    }
}

/// The characters with ASCII small letters raised.
pub fn uppercase_chars(s: &[char]) -> (r: Vec<char>)
    ensures
        r@ == ascii_uppercase(s@),
{
    let mut r: Vec<char> = Vec::new();
    let mut i: usize = 0;
    while i < s.len()
        invariant
            i <= s@.len(),
            r@ == ascii_uppercase(s@.take(i as int)),
        decreases s@.len() - i,
    {
        r.push(upper_ascii_char(s[i]));
        assert(ascii_uppercase(s@.take(i + 1)) =~= ascii_uppercase(s@.take(i as int)).push(
            ascii_upper(s@[i as int]),
        ));
        i = i + 1;
    }
    assert(s@.take(i as int) =~= s@);
    r
}

proof fn lemma_trim_start_shape(s: Seq<char>)
    ensures
        trim_start(s).len() <= s.len(),
        trim_start(s) == s.skip(s.len() - trim_start(s).len()),
        trim_start(s).len() == 0 || !is_white_space(trim_start(s)[0]),
    decreases s.len(),
{
    if s.len() > 0 && is_white_space(s[0]) {
        let t = s.drop_first();
        lemma_trim_start_shape(t);
        assert(t.skip(t.len() - trim_start(t).len()) =~= s.skip(s.len() - trim_start(t).len()));
    } else {
        assert(s.skip(0) =~= s);
    }
}

proof fn lemma_trim_end_shape(s: Seq<char>)
    ensures
        trim_end(s).len() <= s.len(),
        trim_end(s) == s.take(trim_end(s).len() as int),
        trim_end(s).len() == 0 || !is_white_space(trim_end(s).last()),
    decreases s.len(),
{
    if s.len() > 0 && is_white_space(s.last()) {
        let t = s.drop_last();
        lemma_trim_end_shape(t);
        assert(t.take(trim_end(t).len() as int) =~= s.take(trim_end(t).len() as int));
    } else {
        assert(s.take(s.len() as int) =~= s);
    }
}

/// The trimmed text is the stretch of `s` that starts after its leading
/// white space.
pub proof fn lemma_trim_within(s: Seq<char>)
    ensures
        trim_start(s).len() <= s.len(),
        s.len() - trim_start(s).len() + trim(s).len() <= s.len(),
        trim(s) == s.subrange(
            s.len() - trim_start(s).len(),
            s.len() - trim_start(s).len() + trim(s).len(),
        ),
{
    lemma_trim_start_shape(s);
    let u = trim_start(s);
    lemma_trim_end_shape(u);
    let k = s.len() - u.len();
    assert(u.take(trim(s).len() as int) =~= s.subrange(k, k + trim(s).len()));
}

proof fn lemma_trim_start_push(s: Seq<char>, c: char)
    ensures
        trim_start(s.push(c)) == (if trim_start(s).len() > 0 {
            trim_start(s).push(c)
        } else {
            trim_start(seq![c])
        }),
    decreases s.len(),
{
    if s.len() == 0 {
        assert(s.push(c) =~= seq![c]);
    } else if is_white_space(s[0]) {
        assert(s.push(c).drop_first() =~= s.drop_first().push(c));
        lemma_trim_start_push(s.drop_first(), c);
    }
}

/// White space added at the end of a text is trimmed away.
pub proof fn lemma_trim_push_white(s: Seq<char>, c: char)
    requires
        is_white_space(c),
    ensures
        trim(s.push(c)) == trim(s),
{
    lemma_trim_start_push(s, c);
    let u = trim_start(s);
    if u.len() > 0 {
        assert(u.push(c).drop_last() =~= u);
    } else {
        assert(seq![c].drop_first() =~= Seq::<char>::empty());
        assert(trim_start(seq![c]) =~= Seq::<char>::empty()) by {
            reveal_with_fuel(trim_start, 2);
            assert(seq![c][0] == c);
        }
    }
}

/// Trimming twice is trimming once.
pub proof fn lemma_trim_idempotent(s: Seq<char>)
    ensures
        trim(trim(s)) == trim(s),
{
    let u = trim_start(s);
    let t = trim_end(u);
    lemma_trim_start_shape(s);
    lemma_trim_end_shape(u);
    if t.len() > 0 {
        assert(t[0] == u[0]);
    }
    assert(trim_start(t) == t);
    assert(trim_end(t) == t);
}

/// ASCII `A`..`Z` mapped to `a`..`z`; every other character is unchanged.
pub open spec fn ascii_lower(c: char) -> char {
    if 'A' <= c && c <= 'Z' {
        ((c as u32) + 32) as char
    } else {
        c
    }
}

/// `s` with ASCII letters lowered, as `to_ascii_lowercase` gives it.
pub open spec fn ascii_lowercase(s: Seq<char>) -> Seq<char> {
    s.map_values(|c: char| ascii_lower(c))
}

/// `c` with an ASCII capital lowered.
pub fn lower_ascii_char(c: char) -> (r: char)
    ensures
        r == ascii_lower(c),
{
    if 'A' <= c && c <= 'Z' {
        let b = (c as u8) + 32;
        b as char
    } else {
        c
    }
}

/// The characters with ASCII capitals lowered.
pub fn lowercase_chars(s: &[char]) -> (r: Vec<char>)
    ensures
        r@ == ascii_lowercase(s@),
{
    let mut r: Vec<char> = Vec::new();
    let mut i: usize = 0;
    while i < s.len()
        invariant
            i <= s@.len(),
            r@ == ascii_lowercase(s@.take(i as int)),
        decreases s@.len() - i,
    {
        r.push(lower_ascii_char(s[i]));
        assert(ascii_lowercase(s@.take(i + 1)) =~= ascii_lowercase(s@.take(i as int)).push(
            ascii_lower(s@[i as int]),
        ));
        i = i + 1;
    }
    assert(s@.take(i as int) =~= s@);
    r
}

/// `needle` occurs in `hay` starting at position `at`.
pub open spec fn occurs_at(hay: Seq<char>, needle: Seq<char>, at: int) -> bool {
    &&& 0 <= at
    &&& at + needle.len() <= hay.len()
    &&& hay.subrange(at, at + needle.len()) == needle
}

/// `needle` occurs somewhere in `hay`, as `str::contains` tests it.
pub open spec fn contains_text(hay: Seq<char>, needle: Seq<char>) -> bool {
    exists|at: int| occurs_at(hay, needle, at)
}

fn occurs_at_exec(hay: &[char], needle: &[char], at: usize) -> (r: bool)
    requires
        at + needle@.len() <= hay@.len(),
    ensures
        r == occurs_at(hay@, needle@, at as int),
{
    let n = hay.len();
    let mut k: usize = 0;
    while k < needle.len()
        invariant
            n == hay@.len(),
            at + needle@.len() <= hay@.len(),
            k <= needle@.len(),
            forall|j: int| 0 <= j < k ==> hay@[at + j] == needle@[j],
        decreases needle@.len() - k,
    {
        if hay[at + k] != needle[k] {
            assert(hay@.subrange(at as int, at + needle@.len())[k as int] != needle@[k as int]);
            return false;
        }
        k = k + 1;
    }
    assert(hay@.subrange(at as int, at + needle@.len()) =~= needle@);
    true
}

/// `s` with every occurrence of `from` replaced by `to`, the occurrences
/// taken from the left without overlapping, as `str::replace` does.
pub open spec fn replaced(s: Seq<char>, from: Seq<char>, to: Seq<char>) -> Seq<char>
    decreases s.len(),
{
    if from.len() == 0 || s.len() == 0 {
        s
    } else if from.len() <= s.len() && s.take(from.len() as int) == from {
        to + replaced(s.skip(from.len() as int), from, to)
    } else {
        seq![s[0]] + replaced(s.drop_first(), from, to)
    }
}

/// The characters of `s` with every occurrence of `from` replaced by `to`.
pub fn replace_chars(s: &[char], from: &[char], to: &[char]) -> (r: Vec<char>)
    requires
        from@.len() > 0,
    ensures
        r@ == replaced(s@, from@, to@),
{
    let mut out: Vec<char> = Vec::new();
    let mut i: usize = 0;
    let n = from.len();
    assert(s@.skip(0) =~= s@);
    assert(out@ + replaced(s@, from@, to@) =~= replaced(s@, from@, to@));
    while i < s.len()
        invariant
            i <= s@.len(),
            n == from@.len(),
            n > 0,
            out@ + replaced(s@.skip(i as int), from@, to@) == replaced(s@, from@, to@),
        decreases s@.len() - i,
    {
        let ghost rest = s@.skip(i as int);
        if n <= s.len() - i && occurs_at_exec(s, from, i) {
            assert(rest.take(n as int) =~= s@.subrange(i as int, i + n));
            assert(rest.skip(n as int) =~= s@.skip(i + n));
            let mut k: usize = 0;
            let ghost start = out@;
            while k < to.len()
                invariant
                    k <= to@.len(),
                    out@ == start + to@.take(k as int),
                decreases to@.len() - k,
            {
                out.push(to[k]);
                assert(to@.take(k + 1) =~= to@.take(k as int).push(to@[k as int]));
                k = k + 1;
            }
            assert(to@.take(k as int) =~= to@);
            assert(start + (to@ + replaced(rest.skip(n as int), from@, to@)) =~= out@ + replaced(
                s@.skip(i + n),
                from@,
                to@,
            ));
            i = i + n;
        } else {
            assert(!(n <= rest.len() && rest.take(n as int) == from@)) by {
                if n <= rest.len() && rest.take(n as int) == from@ {
                    assert(rest.take(n as int) =~= s@.subrange(i as int, i + n));
                }
            }
            assert(rest.drop_first() =~= s@.skip(i + 1));
            let ghost before = out@;
            out.push(s[i]);
            assert(before + (seq![s@[i as int]] + replaced(rest.drop_first(), from@, to@)) =~= out@
                + replaced(s@.skip(i + 1), from@, to@));
            i = i + 1;
        }
    }
    assert(s@.skip(i as int) =~= Seq::<char>::empty());
    assert(out@ + Seq::<char>::empty() =~= out@);
    out
}

/// Whether `needle` occurs in `hay`.
pub fn contains_chars(hay: &[char], needle: &[char]) -> (r: bool)
    ensures
        r == contains_text(hay@, needle@),
{
    if needle.len() > hay.len() {
        assert(!contains_text(hay@, needle@));
        return false;
    }
    let last = hay.len() - needle.len();
    let mut at: usize = 0;
    while at <= last
        invariant
            last + needle@.len() == hay@.len(),
            at <= last + 1,
            forall|j: int| 0 <= j < at ==> !occurs_at(hay@, needle@, j),
        decreases last + 1 - at,
    {
        if occurs_at_exec(hay, needle, at) {
            return true;
        }
        if at == last {
            return false;
        }
        at = at + 1;
    }
    false
}


/// The position of the first `c` in `s`.
pub open spec fn find_first(s: Seq<char>, c: char) -> Option<int>
    decreases s.len(),
{
    if s.len() == 0 {
        None
    } else if s[0] == c {
        Some(0)
    } else {
        match find_first(s.drop_first(), c) {
            Some(i) => Some(i + 1),
            None => None,
        }
    }
}

/// What `find_first` finds: the first position holding `c`, if any.
pub proof fn lemma_find_first(s: Seq<char>, c: char)
    ensures
        find_first(s, c) is None <==> (forall|j: int| 0 <= j < s.len() ==> s[j] != c),
        find_first(s, c) matches Some(i) ==> 0 <= i < s.len() && s[i] == c && (forall|j: int|
            0 <= j < i ==> s[j] != c),
    decreases s.len(),
{
    if s.len() > 0 && s[0] != c {
        let t = s.drop_first();
        lemma_find_first(t, c);
        assert forall|j: int| 0 <= j < s.len() && j > 0 implies s[j] == t[j - 1] by {}
        if find_first(t, c) is None {
            assert forall|j: int| 0 <= j < s.len() implies s[j] != c by {
                if j > 0 {
                    assert(s[j] == t[j - 1]);
                }
            }
        } else {
            let i = find_first(t, c)->0;
            assert(t[i] == c);
            assert(s[i + 1] == c);
        }
    }
}

/// The first position at or after `from` that holds `c`.
pub fn find_char_from(s: &[char], from: usize, c: char) -> (r: Option<usize>)
    requires
        from <= s@.len(),
    ensures
        r matches Some(i) ==> find_first(s@.skip(from as int), c) == Some(i - from),
        r is None ==> find_first(s@.skip(from as int), c) is None,
{
    let ghost t = s@.skip(from as int);
    let mut i: usize = from;
    while i < s.len()
        invariant
            from <= i <= s@.len(),
            t == s@.skip(from as int),
            forall|j: int| from <= j < i ==> s@[j] != c,
        decreases s@.len() - i,
    {
        if s[i] == c {
            proof {
                lemma_find_first(t, c);
                assert(t[i - from] == c);
                if find_first(t, c) is Some {
                    let k = find_first(t, c)->0;
                    assert(t[k] == s@[k + from]);
                }
            }
            return Some(i);
        }
        i = i + 1;
    }
    proof {
        lemma_find_first(t, c);
        assert forall|j: int| 0 <= j < t.len() implies t[j] != c by {
            assert(t[j] == s@[j + from]);
        }
    }
    None
}

/// A line without the carriage return of a `\r\n` line ending.
pub open spec fn strip_carriage_return(line: Seq<char>) -> Seq<char> {
    if line.len() > 0 && line.last() == '\r' {
        line.drop_last()
    } else {
        line
    }
}

/// The lines of `s`, as `str::lines` yields them: split at `\n`, a
/// `\r` before that `\n` dropped, and no empty line after a final `\n`.
pub open spec fn text_lines(s: Seq<char>) -> Seq<Seq<char>>
    decreases s.len(),
{
    if s.len() == 0 {
        seq![]
    } else {
        match find_first(s, '\n') {
            None => seq![s],
            Some(i) => if 0 <= i < s.len() {
                seq![strip_carriage_return(s.take(i))] + text_lines(s.skip(i + 1))
            } else {
                seq![]
            },
        }
    }
}

/// The lines of `s`, each as its characters.
pub fn lines_of(s: &[char]) -> (r: Vec<Vec<char>>)
    ensures
        r@.len() == text_lines(s@).len(),
        forall|i: int| 0 <= i < r@.len() ==> #[trigger] r@[i]@ == text_lines(s@)[i],
{
    let mut r: Vec<Vec<char>> = Vec::new();
    let ghost mut done: Seq<Seq<char>> = seq![];
    let mut pos: usize = 0;
    assert(s@.skip(0) =~= s@);
    assert(done + text_lines(s@) =~= text_lines(s@));
    while pos < s.len()
        invariant
            pos <= s@.len(),
            text_lines(s@) == done + text_lines(s@.skip(pos as int)),
            r@.len() == done.len(),
            forall|i: int| 0 <= i < r@.len() ==> #[trigger] r@[i]@ == done[i],
        decreases s@.len() - pos,
    {
        let ghost rest = s@.skip(pos as int);
        proof {
            lemma_find_first(rest, '\n');
        }
        let end = match find_char_from(s, pos, '\n') {
            Some(i) => i,
            None => s.len(),
        };
        let mut line: Vec<char> = Vec::new();
        let mut k: usize = pos;
        while k < end
            invariant
                pos <= k <= end <= s@.len(),
                line@ == s@.subrange(pos as int, k as int),
            decreases end - k,
        {
            line.push(s[k]);
            assert(s@.subrange(pos as int, k + 1) =~= s@.subrange(pos as int, k as int).push(
                s@[k as int],
            ));
            k = k + 1;
        }
        if end < s.len() && end > pos && s[end - 1] == '\r' {
            line.pop();
        }
        let ghost piece = line@;
        proof {
            if end < s.len() {
                assert(rest.take(end - pos) =~= s@.subrange(pos as int, end as int));
                assert(rest.skip(end - pos + 1) =~= s@.skip(end + 1));
                assert(piece =~= strip_carriage_return(rest.take(end - pos)));
                assert(text_lines(rest) == seq![piece] + text_lines(s@.skip(end + 1)));
            } else {
                assert(rest =~= s@.subrange(pos as int, end as int));
                assert(s@.skip(end as int) =~= Seq::<char>::empty());
                assert(text_lines(rest) == seq![piece]);
                assert(text_lines(s@.skip(end as int)) =~= Seq::<Seq<char>>::empty());
            }
            done = done.push(piece);
        }
        r.push(line);
        pos = if end < s.len() {
            end + 1
        } else {
            end
        };
        proof {
            assert(text_lines(s@) =~= done + text_lines(s@.skip(pos as int)));
        }
    }
    proof {
        assert(s@.skip(pos as int) =~= Seq::<char>::empty());
        assert(text_lines(s@) =~= done);
    }
    r
}

/// The decimal digit for `d` (below ten).
pub open spec fn digit(d: nat) -> char {
    (48 + d) as char
}

/// The decimal notation of `n`, without sign or leading zeros.
pub open spec fn decimal(n: nat) -> Seq<char>
    decreases n,
{
    if n < 10 {
        seq![digit(n)]
    } else {
        decimal(n / 10).push(digit(n % 10))
    }
}

fn digit_char(d: usize) -> (c: char)
    requires
        d < 10,
    ensures
        c == digit(d as nat),
{
    let b: u8 = 48 + (d as u8);
    b as char
}

/// The decimal notation of `n`, as `to_string` writes an unsigned integer.
pub fn decimal_string(n: usize) -> (r: String)
    ensures
        r@ == decimal(n as nat),
    decreases n,
{
    if n < 10 {
        let mut r = String::new();
        push_char(&mut r, digit_char(n));
        assert(r@ =~= decimal(n as nat));
        r
    } else {
        let mut r = decimal_string(n / 10);
        push_char(&mut r, digit_char(n % 10));
        r
    }
}


/// The characters of `s` from `start` up to `end`.
pub fn sub_chars(s: &[char], start: usize, end: usize) -> (r: Vec<char>)
    requires
        start <= end <= s@.len(),
    ensures
        r@ == s@.subrange(start as int, end as int),
{
    let mut r: Vec<char> = Vec::new();
    let mut i: usize = start;
    while i < end
        invariant
            start <= i <= end <= s@.len(),
            r@ == s@.subrange(start as int, i as int),
        decreases end - i,
    {
        r.push(s[i]);
        assert(s@.subrange(start as int, i + 1) =~= s@.subrange(start as int, i as int).push(
            s@[i as int],
        ));
        i = i + 1;
    }
    r
}

/// Whether two character sequences are the same.
pub fn chars_equal(a: &[char], b: &[char]) -> (r: bool)
    ensures
        r == (a@ == b@),
{
    if a.len() != b.len() {
        return false;
    }
    let mut i: usize = 0;
    while i < a.len()
        invariant
            a@.len() == b@.len(),
            i <= a@.len(),
            forall|j: int| 0 <= j < i ==> a@[j] == b@[j],
        decreases a@.len() - i,
    {
        if a[i] != b[i] {
            return false;
        }
        i = i + 1;
    }
    assert(a@ =~= b@);
    true
}


/// Encoding a concatenation encodes the parts one after the other.
pub proof fn lemma_encode_concat(a: Seq<char>, b: Seq<char>)
    ensures
        encode_utf8(a + b) == encode_utf8(a) + encode_utf8(b),
    decreases a.len(),
{
    if a.len() == 0 {
        assert(a + b =~= b);
        assert(encode_utf8(a) =~= Seq::<u8>::empty());
        assert(encode_utf8(a) + encode_utf8(b) =~= encode_utf8(b));
    } else {
        lemma_encode_concat(a.drop_first(), b);
        assert((a + b).drop_first() =~= a.drop_first() + b);
        assert((a + b)[0] == a[0]);
        assert(encode_utf8(a + b) =~= encode_scalar(a[0] as u32) + encode_utf8(a.drop_first() + b));
        assert(encode_utf8(a + b) =~= encode_utf8(a) + encode_utf8(b));
    }
}

/// The end of the first part of a concatenation is a character boundary
/// of its encoding.
pub proof fn lemma_boundary_at_join(a: Seq<char>, b: Seq<char>)
    ensures
        is_char_boundary(encode_utf8(a + b), encode_utf8(a).len() as int),
    decreases a.len(),
{
    broadcast use encode_utf8_valid_utf8;

    if a.len() == 0 {
        assert(encode_utf8(a) =~= Seq::<u8>::empty());
    } else {
        let whole = a + b;
        let bytes = encode_utf8(whole);
        lemma_boundary_at_join(a.drop_first(), b);
        assert(whole.drop_first() =~= a.drop_first() + b);
        assert(whole[0] == a[0]);
        encode_utf8_first_scalar(whole);
        assert(pop_first_scalar(bytes) =~= encode_utf8(whole.drop_first()));
        lemma_encode_concat(a, b);
        assert(encode_utf8(a).len() == encode_scalar(a[0] as u32).len() + encode_utf8(
            a.drop_first(),
        ).len());
        assert(valid_utf8(bytes));
    }
}

/// The number of bytes in the UTF-8 encoding of `c`, as `char::len_utf8`
/// gives it.
pub fn utf8_width(c: char) -> (r: usize)
    ensures
        r == encode_scalar(c as u32).len(),
        1 <= r <= 4,
{
    let u = c as u32;
    if u <= 0x7F {
        1
    } else if u <= 0x7FF {
        2
    } else if u <= 0xFFFF {
        proof {
            char_is_scalar(c);
        }
        3
    } else {
        proof {
            char_is_scalar(c);
        }
        4
    }
}


/// Character boundaries of a concatenation past its first part are those
/// of the second part, shifted by the first part's length.
pub proof fn lemma_boundary_shift(a: Seq<char>, rest: Seq<char>, k: int)
    requires
        k >= 0,
    ensures
        is_char_boundary(encode_utf8(a + rest), encode_utf8(a).len() + k) == is_char_boundary(
            encode_utf8(rest),
            k,
        ),
    decreases a.len(),
{
    broadcast use encode_utf8_valid_utf8;

    if a.len() == 0 {
        assert(a + rest =~= rest);
        assert(encode_utf8(a) =~= Seq::<u8>::empty());
    } else {
        let whole = a + rest;
        let bytes = encode_utf8(whole);
        lemma_boundary_shift(a.drop_first(), rest, k);
        assert(whole.drop_first() =~= a.drop_first() + rest);
        assert(whole[0] == a[0]);
        encode_utf8_first_scalar(whole);
        assert(pop_first_scalar(bytes) =~= encode_utf8(whole.drop_first()));
        lemma_encode_concat(a, rest);
        lemma_encode_concat(a.drop_first(), rest);
        assert(encode_utf8(a).len() == encode_scalar(a[0] as u32).len() + encode_utf8(
            a.drop_first(),
        ).len());
    }
}

/// No byte inside the encoding of a single character is a boundary.
pub proof fn lemma_no_boundary_inside_char(c: char, rest: Seq<char>, k: int)
    requires
        0 < k < encode_scalar(c as u32).len(),
    ensures
        !is_char_boundary(encode_utf8(seq![c] + rest), k),
{
    broadcast use encode_utf8_valid_utf8;

    let whole = seq![c] + rest;
    assert(whole[0] == c);
    encode_utf8_first_scalar(whole);
    let bytes = encode_utf8(whole);
    assert(valid_utf8(bytes));
    assert(valid_utf8(pop_first_scalar(bytes)));
    reveal_with_fuel(is_char_boundary, 2);
}


/// Where a text ends with a line break (or is empty), the lines of it
/// followed by more text are its own lines and then those of the rest.
pub proof fn lemma_lines_concat(a: Seq<char>, b: Seq<char>)
    requires
        a.len() == 0 || a.last() == '\n',
    ensures
        text_lines(a + b) == text_lines(a) + text_lines(b),
    decreases a.len(),
{
    if a.len() == 0 {
        assert(a + b =~= b);
        assert(text_lines(a) =~= Seq::<Seq<char>>::empty());
        assert(text_lines(a) + text_lines(b) =~= text_lines(b));
    } else {
        let ab = a + b;
        lemma_find_first(a, '\n');
        lemma_find_first(ab, '\n');
        assert(ab[a.len() - 1] == '\n');
        let i = find_first(a, '\n')->0;
        assert(find_first(ab, '\n') == Some(i)) by {
            if find_first(ab, '\n') is None {
                assert(ab[a.len() - 1] == '\n');
            } else {
                let k = find_first(ab, '\n')->0;
                if k < i {
                    assert(a[k] == ab[k]);
                } else if k > i {
                    assert(ab[i] == a[i]);
                }
            }
        }
        let rest = a.skip(i + 1);
        assert(rest.len() == 0 || rest.last() == '\n') by {
            if rest.len() > 0 {
                assert(rest.last() == a.last());
            }
        }
        lemma_lines_concat(rest, b);
        assert(ab.take(i) =~= a.take(i));
        assert(ab.skip(i + 1) =~= rest + b);
        assert(text_lines(ab) =~= seq![strip_carriage_return(a.take(i))] + text_lines(rest + b));
        assert(text_lines(a) =~= seq![strip_carriage_return(a.take(i))] + text_lines(rest));
        assert(text_lines(ab) =~= text_lines(a) + text_lines(b));
    }
}

/// A line break added to a text that does not end with one leaves its
/// lines as they were, but for a carriage return at the end of the last,
/// which now ends a `\r\n` line ending.
pub proof fn lemma_lines_end_break(e: Seq<char>)
    requires
        e.len() > 0,
        e.last() != '\n',
    ensures
        text_lines(e).len() > 0,
        text_lines(e.push('\n')) == text_lines(e).drop_last().push(
            strip_carriage_return(text_lines(e).last()),
        ),
    decreases e.len(),
{
    let s = e.push('\n');
    lemma_find_first(e, '\n');
    lemma_find_first(s, '\n');
    if find_first(e, '\n') is None {
        lemma_single_line(e);
        assert(seq![e].drop_last().push(strip_carriage_return(e)) =~= seq![strip_carriage_return(e)]);
    } else {
        let i = find_first(e, '\n')->0;
        assert(i < e.len() - 1);
        assert(find_first(s, '\n') == Some(i)) by {
            let k = find_first(s, '\n')->0;
            assert(s[i] == e[i]);
            if k < i {
                assert(s[k] == e[k]);
            }
        }
        let rest = e.skip(i + 1);
        assert(rest.last() == e.last());
        lemma_lines_end_break(rest);
        assert(s.take(i) =~= e.take(i));
        assert(s.skip(i + 1) =~= rest.push('\n'));
        let first = seq![strip_carriage_return(e.take(i))];
        let r = text_lines(rest);
        assert(text_lines(e) == first + r);
        assert(text_lines(s) == first + text_lines(rest.push('\n')));
        assert((first + r).last() == r.last());
        assert((first + r).drop_last().push(strip_carriage_return(r.last())) =~= first + r.drop_last().push(
            strip_carriage_return(r.last()),
        ));
    }
}

/// A text that is one line ending in a line break has just that line.
pub proof fn lemma_single_line(line: Seq<char>)
    requires
        find_first(line, '\n') is None,
    ensures
        text_lines(line.push('\n')) == seq![strip_carriage_return(line)],
{
    let s = line.push('\n');
    lemma_find_first(line, '\n');
    lemma_find_first(s, '\n');
    assert(s[line.len() as int] == '\n');
    assert(find_first(s, '\n') == Some(line.len() as int)) by {
        if find_first(s, '\n') is Some {
            let k = find_first(s, '\n')->0;
            if k < line.len() {
                assert(s[k] == line[k]);
            }
        }
    }
    assert(s.take(line.len() as int) =~= line);
    assert(s.skip(line.len() as int + 1) =~= Seq::<char>::empty());
    assert(text_lines(Seq::<char>::empty()) =~= Seq::<Seq<char>>::empty());
    assert(text_lines(s) =~= seq![strip_carriage_return(line)] + Seq::<Seq<char>>::empty());
}

} // verus!
