//! Character-level helpers on text, stated over the sequence of its characters.

use vstd::prelude::*;

verus! {

/// The characters with the Unicode property `White_Space`.
pub open spec fn whitespace(c: char) -> bool {
    ||| '\u{9}' <= c && c <= '\u{d}'
    ||| c == ' '
    ||| c == '\u{85}'
    ||| c == '\u{a0}'
    ||| c == '\u{1680}'
    ||| '\u{2000}' <= c && c <= '\u{200a}'
    ||| c == '\u{2028}'
    ||| c == '\u{2029}'
    ||| c == '\u{202f}'
    ||| c == '\u{205f}'
    ||| c == '\u{3000}'
}

/// Trusted: `char::is_whitespace` answers whether a character has the Unicode
/// property `White_Space`, which [`whitespace`] spells out.
pub assume_specification[ char::is_whitespace ](c: char) -> (answer: bool)
    ensures
        answer == whitespace(c),
;

/// What `str::to_lowercase` makes of a text.
pub uninterp spec fn lowercase(s: Seq<char>) -> Seq<char>;

/// Trusted: `str::to_lowercase`. The Unicode mapping is left to the name
/// [`lowercase`].
#[verifier::external_body]
pub(crate) fn lowercased(s: &str) -> (folded: String)
    ensures
        folded@ == lowercase(s@),
{
    s.to_lowercase()
}

/// Trusted: `String::push` appends one character.
pub assume_specification[ String::push ](s: &mut String, c: char)
    ensures
        final(s)@ == old(s)@.push(c),
;

/// One character with ASCII capitals folded to small letters.
pub open spec fn lower_char(c: char) -> char {
    if 'A' <= c && c <= 'Z' {
        (c as u8 + 32) as char
    } else {
        c
    }
}

/// Text with ASCII capitals folded to small letters.
pub open spec fn lower(s: Seq<char>) -> Seq<char> {
    s.map_values(|c: char| lower_char(c))
}

/// Two names that differ in ASCII case alone.
pub open spec fn same_name(a: Seq<char>, b: Seq<char>) -> bool {
    lower(a) == lower(b)
}

/// Control characters: the C0 and C1 codes and DEL.
pub open spec fn control(c: char) -> bool {
    c as u32 <= 0x1f || 0x7f <= c as u32 <= 0x9f
}

/// The characters that would break an IRC line apart.
pub open spec fn line_breaking(c: char) -> bool {
    c == '\r' || c == '\n' || c == '\0'
}

/// Text that holds no character for which `p` is true.
pub open spec fn free_of(s: Seq<char>, p: spec_fn(char) -> bool) -> bool {
    forall|i: int| 0 <= i < s.len() ==> !p(#[trigger] s[i])
}

/// Text with a character that would break an IRC line apart.
pub open spec fn breaks_line(s: Seq<char>) -> bool {
    !free_of(s, |c: char| line_breaking(c))
}

/// Text with a whitespace character in it.
pub open spec fn has_space(s: Seq<char>) -> bool {
    !free_of(s, |c: char| whitespace(c))
}

/// Text without its leading whitespace.
pub open spec fn trim_start(s: Seq<char>) -> Seq<char>
    decreases s.len(),
{
    if s.len() > 0 && whitespace(s[0]) {
        trim_start(s.drop_first())
    } else {
        s
    }
}

/// Text without its trailing whitespace.
pub open spec fn trim_end(s: Seq<char>) -> Seq<char>
    decreases s.len(),
{
    if s.len() > 0 && whitespace(s.last()) {
        trim_end(s.drop_last())
    } else {
        s
    }
}

/// Text without leading and trailing whitespace.
pub open spec fn trim(s: Seq<char>) -> Seq<char> {
    trim_end(trim_start(s))
}

/// The text up to its first whitespace character.
pub open spec fn first_word(s: Seq<char>) -> Seq<char>
    decreases s.len(),
{
    if s.len() == 0 || whitespace(s[0]) {
        Seq::empty()
    } else {
        seq![s[0]] + first_word(s.drop_first())
    }
}

/// The text from its first whitespace character on.
pub open spec fn after_first_word(s: Seq<char>) -> Seq<char> {
    s.skip(first_word(s).len() as int)
}

/// The characters of `s`.
pub fn chars_of(s: &str) -> (chars: Vec<char>)
    ensures
        chars@ == s@,
{
    let mut chars: Vec<char> = Vec::new();
    for c in iter: s.chars()
        invariant
            iter.seq() == s@,
            chars@ == s@.take(iter.index() as int),
    {
        proof {
            assert(s@.take(iter.index() as int + 1) =~= s@.take(iter.index() as int).push(
                s@[iter.index() as int],
            ));
        }
        chars.push(c);
    }
    assert(s@.take(s@.len() as int) =~= s@);
    chars
}

/// Whether two texts are equal.
pub fn same_text(a: &str, b: &str) -> (same: bool)
    ensures
        same == (a@ == b@),
{
    let left = chars_of(a);
    let right = chars_of(b);
    if left.len() != right.len() {
        return false;
    }
    let mut i: usize = 0;
    while i < left.len()
        invariant
            left@ == a@,
            right@ == b@,
            left.len() == right.len(),
            i <= left.len(),
            forall|j: int| 0 <= j < i ==> left@[j] == right@[j],
        decreases left.len() - i,
    {
        if left[i] != right[i] {
            return false;
        }
        i = i + 1;
    }
    assert(a@ =~= b@);
    true
}

/// One character with ASCII capitals folded to small letters.
pub fn lowered_char(c: char) -> (folded: char)
    ensures
        folded == lower_char(c),
{
    if 'A' <= c && c <= 'Z' {
        (c as u8 + 32) as char
    } else {
        c
    }
}

/// `s` with ASCII capitals folded to small letters.
pub fn lowered(s: &str) -> (folded: String)
    ensures
        folded@ == lower(s@),
{
    let chars = chars_of(s);
    let mut folded = String::new();
    let mut i: usize = 0;
    while i < chars.len()
        invariant
            chars@ == s@,
            i <= chars.len(),
            folded@ == lower(s@.take(i as int)),
        decreases chars.len() - i,
    {
        proof {
            assert(s@.take(i as int + 1) =~= s@.take(i as int).push(s@[i as int]));
            assert(lower(s@.take(i as int + 1)) =~= lower(s@.take(i as int)).push(
                lower_char(s@[i as int]),
            ));
        }
        folded.push(lowered_char(chars[i]));
        i = i + 1;
    }
    assert(s@.take(s@.len() as int) =~= s@);
    folded
}

/// Whether two names differ in ASCII case alone.
pub fn names_match(a: &str, b: &str) -> (same: bool)
    ensures
        same == same_name(a@, b@),
{
    let left = chars_of(a);
    let right = chars_of(b);
    if left.len() != right.len() {
        assert(lower(a@).len() != lower(b@).len());
        return false;
    }
    let mut i: usize = 0;
    while i < left.len()
        invariant
            left@ == a@,
            right@ == b@,
            left.len() == right.len(),
            i <= left.len(),
            forall|j: int| 0 <= j < i ==> lower_char(left@[j]) == lower_char(right@[j]),
        decreases left.len() - i,
    {
        if lowered_char(left[i]) != lowered_char(right[i]) {
            assert(lower(a@)[i as int] != lower(b@)[i as int]);
            return false;
        }
        i = i + 1;
    }
    assert(lower(a@) =~= lower(b@));
    true
}

/// Whether `s` holds a character that would break an IRC line apart.
pub fn has_line_break(s: &str) -> (found: bool)
    ensures
        found == breaks_line(s@),
{
    let chars = chars_of(s);
    let mut i: usize = 0;
    while i < chars.len()
        invariant
            chars@ == s@,
            i <= chars.len(),
            forall|j: int| 0 <= j < i ==> !line_breaking(#[trigger] s@[j]),
        decreases chars.len() - i,
    {
        let c = chars[i];
        if c == '\r' || c == '\n' || c == '\0' {
            assert(line_breaking(s@[i as int]));
            return true;
        }
        i = i + 1;
    }
    false
}

/// Whether `s` holds a whitespace character.
pub fn has_whitespace(s: &str) -> (found: bool)
    ensures
        found == has_space(s@),
{
    let chars = chars_of(s);
    let mut i: usize = 0;
    while i < chars.len()
        invariant
            chars@ == s@,
            i <= chars.len(),
            forall|j: int| 0 <= j < i ==> !whitespace(#[trigger] s@[j]),
        decreases chars.len() - i,
    {
        if chars[i].is_whitespace() {
            assert(whitespace(s@[i as int]));
            return true;
        }
        i = i + 1;
    }
    false
}

/// Whether `c` is one of `set`.
pub fn is_one_of(c: char, set: &[char]) -> (found: bool)
    ensures
        found == set@.contains(c),
{
    let mut i: usize = 0;
    while i < set.len()
        invariant
            i <= set.len(),
            forall|j: int| 0 <= j < i ==> set@[j] != c,
        decreases set.len() - i,
    {
        if set[i] == c {
            return true;
        }
        i = i + 1;
    }
    false
}

/// Whether `s` starts with one of the characters of `set`.
pub fn starts_with_any(s: &str, set: &[char]) -> (found: bool)
    ensures
        found == (s@.len() > 0 && set@.contains(s@[0])),
{
    if s.is_empty() {
        false
    } else {
        is_one_of(s.get_char(0), set)
    }
}

/// `s` without its leading whitespace.
pub fn trimmed_start(s: &str) -> (rest: &str)
    ensures
        rest@ == trim_start(s@),
{
    let chars = chars_of(s);
    let mut i: usize = 0;
    assert(s@.skip(0) =~= s@);
    while i < chars.len() && chars[i].is_whitespace()
        invariant
            chars@ == s@,
            i <= chars.len(),
            trim_start(s@) == trim_start(s@.skip(i as int)),
        decreases chars.len() - i,
    {
        assert(s@.skip(i as int).drop_first() =~= s@.skip(i as int + 1));
        i = i + 1;
    }
    assert(s@.skip(i as int) =~= s@.subrange(i as int, s@.len() as int));
    s.substring_char(i, chars.len())
}

/// `s` without its trailing whitespace.
pub fn trimmed_end(s: &str) -> (rest: &str)
    ensures
        rest@ == trim_end(s@),
{
    let chars = chars_of(s);
    let mut end: usize = chars.len();
    assert(s@.take(end as int) =~= s@);
    while end > 0 && chars[end - 1].is_whitespace()
        invariant
            chars@ == s@,
            end <= chars.len(),
            trim_end(s@) == trim_end(s@.take(end as int)),
        decreases end,
    {
        assert(s@.take(end as int).drop_last() =~= s@.take(end as int - 1));
        end = end - 1;
    }
    assert(s@.take(end as int) =~= s@.subrange(0, end as int));
    s.substring_char(0, end)
}

/// `s` without leading and trailing whitespace.
pub fn trimmed(s: &str) -> (rest: &str)
    ensures
        rest@ == trim(s@),
{
    trimmed_end(trimmed_start(s))
}

/// A word is no longer than the text it starts, and is a prefix of it.
pub proof fn lemma_first_word(s: Seq<char>)
    ensures
        first_word(s).len() <= s.len(),
        first_word(s) == s.take(first_word(s).len() as int),
        !has_space(first_word(s)),
    decreases s.len(),
{
    if s.len() == 0 || whitespace(s[0]) {
        assert(first_word(s) =~= s.take(0));
    } else {
        let rest = s.drop_first();
        lemma_first_word(rest);
        assert(first_word(s) =~= s.take(first_word(s).len() as int));
        assert forall|i: int| 0 <= i < first_word(s).len() implies !whitespace(
            #[trigger] first_word(s)[i],
        ) by {
            if i > 0 {
                assert(first_word(s)[i] == first_word(rest)[i - 1]);
            }
        }
    }
}

/// How many characters stand before the first whitespace of `s`.
pub fn first_word_len(s: &str) -> (count: usize)
    ensures
        count == first_word(s@).len(),
        count <= s@.len(),
{
    let chars = chars_of(s);
    let mut i: usize = 0;
    assert(s@.skip(0) =~= s@);
    while i < chars.len() && !chars[i].is_whitespace()
        invariant
            chars@ == s@,
            i <= chars.len(),
            first_word(s@).len() == i + first_word(s@.skip(i as int)).len(),
        decreases chars.len() - i,
    {
        assert(s@.skip(i as int).drop_first() =~= s@.skip(i as int + 1));
        i = i + 1;
    }
    i
}

/// `s` from character `from` on.
pub fn tail(s: &str, from: usize) -> (rest: &str)
    requires
        from <= s@.len(),
    ensures
        rest@ == s@.skip(from as int),
{
    assert(s@.skip(from as int) =~= s@.subrange(from as int, s@.len() as int));
    s.substring_char(from, s.unicode_len())
}

/// The first `count` characters of `s`.
pub fn head(s: &str, count: usize) -> (rest: &str)
    requires
        count <= s@.len(),
    ensures
        rest@ == s@.take(count as int),
{
    assert(s@.take(count as int) =~= s@.subrange(0, count as int));
    s.substring_char(0, count)
}

/// A copy of an optional text.
pub fn copied(s: &Option<String>) -> (copy: Option<String>)
    ensures
        copy == *s,
{
    match s {
        Some(s) => Some(s.clone()),
        None => None,
    }
}

/// Whether two optional texts are equal.
pub fn same_option(a: &Option<String>, b: &Option<String>) -> (same: bool)
    ensures
        same == (a.deep_view() == b.deep_view()),
{
    match (a, b) {
        (Some(a), Some(b)) => *a == *b,
        (None, None) => true,
        _ => false,
    }
}

/// Text without the trailing characters that are in `set`.
pub open spec fn trim_end_set(s: Seq<char>, set: Seq<char>) -> Seq<char>
    decreases s.len(),
{
    if s.len() > 0 && set.contains(s.last()) {
        trim_end_set(s.drop_last(), set)
    } else {
        s
    }
}

/// `s` without the trailing characters that are in `set`.
pub fn trimmed_end_set<'a>(s: &'a str, set: &[char]) -> (rest: &'a str)
    ensures
        rest@ == trim_end_set(s@, set@),
{
    let chars = chars_of(s);
    let mut end: usize = chars.len();
    assert(s@.take(end as int) =~= s@);
    while end > 0 && is_one_of(chars[end - 1], set)
        invariant
            chars@ == s@,
            end <= chars.len(),
            trim_end_set(s@, set@) == trim_end_set(s@.take(end as int), set@),
        decreases end,
    {
        assert(s@.take(end as int).drop_last() =~= s@.take(end as int - 1));
        end = end - 1;
    }
    assert(s@.take(end as int) =~= s@.subrange(0, end as int));
    s.substring_char(0, end)
}

/// Text that starts with `prefix`.
pub open spec fn has_prefix(s: Seq<char>, prefix: Seq<char>) -> bool {
    prefix.len() <= s.len() && s.take(prefix.len() as int) == prefix
}

/// What follows `prefix`, where `s` starts with it.
pub fn after_prefix<'a>(s: &'a str, prefix: &str) -> (rest: Option<&'a str>)
    ensures
        rest.deep_view() == (if has_prefix(s@, prefix@) {
            Some(s@.skip(prefix@.len() as int))
        } else {
            None
        }),
{
    let count: usize = prefix.unicode_len();
    if count <= s.unicode_len() && same_text(head(s, count), prefix) {
        Some(tail(s, count))
    } else {
        None
    }
}

/// Parts with one space between each two.
pub open spec fn spaced(parts: Seq<Seq<char>>) -> Seq<char>
    decreases parts.len(),
{
    if parts.len() == 0 {
        Seq::empty()
    } else if parts.len() == 1 {
        parts[0]
    } else {
        spaced(parts.drop_last()).push(' ') + parts.last()
    }
}

/// The parts from index `from` on, with one space between each two.
pub fn join_from(parts: &Vec<String>, from: usize) -> (joined: String)
    ensures
        joined@ == (if from <= parts@.len() {
            spaced(parts.deep_view().skip(from as int))
        } else {
            Seq::empty()
        }),
{
    let mut joined = String::new();
    if from >= parts.len() {
        assert(from == parts@.len() ==> parts.deep_view().skip(from as int) =~= Seq::empty());
        return joined;
    }
    joined.append(parts[from].as_str());
    let mut i: usize = from + 1;
    let ghost all = parts.deep_view().skip(from as int);
    assert(all.take(1).len() == 1);
    assert(joined@ =~= spaced(all.take(1)));
    while i < parts.len()
        invariant
            from < i <= parts.len(),
            all == parts.deep_view().skip(from as int),
            joined@ == spaced(all.take(i - from)),
        decreases parts.len() - i,
    {
        proof {
            let next = all.take(i - from + 1);
            assert(next.drop_last() =~= all.take(i - from));
            assert(next.last() == parts@[i as int]@);
        }
        joined.push(' ');
        joined.append(parts[i].as_str());
        i = i + 1;
    }
    assert(all.take(i - from) =~= all);
    joined
}

pub open spec fn digit(n: nat) -> char {
    (n + 48) as char
}

/// A number in decimal digits.
pub open spec fn decimal(n: nat) -> Seq<char>
    decreases n,
{
    if n < 10 {
        seq![digit(n)]
    } else {
        decimal(n / 10).push(digit(n % 10))
    }
}

/// `n` in decimal digits.
pub fn number(n: u64) -> (digits: String)
    ensures
        digits@ == decimal(n as nat),
    decreases n,
{
    let mut digits = if n < 10 {
        String::new()
    } else {
        number(n / 10)
    };
    let last: u8 = (n % 10) as u8;
    digits.push((last + 48) as char);
    assert(n < 10 ==> digits@ =~= seq![digit(n as nat)]);
    digits
}

pub open spec fn is_digit(c: char) -> bool {
    '0' <= c && c <= '9'
}

/// The number that decimal digits spell.
pub open spec fn digits_value(s: Seq<char>) -> nat
    decreases s.len(),
{
    if s.len() == 0 {
        0
    } else {
        digits_value(s.drop_last()) * 10 + (s.last() as nat - '0' as nat) as nat
    }
}

/// The digits of a number that may carry a plus sign.
pub open spec fn unsigned_digits(s: Seq<char>) -> Seq<char> {
    if s.len() > 0 && s[0] == '+' {
        s.drop_first()
    } else {
        s
    }
}

/// The sixteen-bit number that text spells.
pub open spec fn parsed_u16(s: Seq<char>) -> Option<u16> {
    let digits = unsigned_digits(s);
    if digits.len() > 0 && (forall|i: int| 0 <= i < digits.len() ==> is_digit(#[trigger] digits[i]))
        && digits_value(digits) <= u16::MAX {
        Some(digits_value(digits) as u16)
    } else {
        None
    }
}

proof fn lemma_longer_digits_are_larger(s: Seq<char>, i: int)
    requires
        0 <= i <= s.len(),
        forall|j: int| 0 <= j < s.len() ==> is_digit(#[trigger] s[j]),
    ensures
        digits_value(s.take(i)) <= digits_value(s),
    decreases s.len(),
{
    if i < s.len() {
        lemma_longer_digits_are_larger(s.drop_last(), i);
        assert(s.drop_last().take(i) =~= s.take(i));
    } else {
        assert(s.take(i) =~= s);
    }
}

/// The sixteen-bit number that `s` spells, if it spells one.
pub fn parse_u16(s: &str) -> (value: Option<u16>)
    ensures
        value == parsed_u16(s@),
{
    let chars = chars_of(s);
    let start: usize = if chars.len() > 0 && chars[0] == '+' {
        1
    } else {
        0
    };
    let ghost digits = unsigned_digits(s@);
    assert(digits =~= s@.skip(start as int));
    if start == chars.len() {
        return None;
    }
    let mut value: u32 = 0;
    let mut i: usize = start;
    assert(digits.take(0) =~= Seq::empty());
    while i < chars.len()
        invariant
            chars@ == s@,
            start <= i <= chars.len(),
            digits == s@.skip(start as int),
            digits == unsigned_digits(s@),
            digits.len() > 0,
            value == digits_value(digits.take(i - start)),
            value <= u16::MAX,
            forall|j: int| 0 <= j < i - start ==> is_digit(#[trigger] digits[j]),
        decreases chars.len() - i,
    {
        let c = chars[i];
        assert(c == digits[i - start]);
        if c < '0' || c > '9' {
            assert(!is_digit(digits[i - start]));
            return None;
        }
        proof {
            let longer = digits.take(i - start + 1);
            assert(longer.drop_last() =~= digits.take(i - start));
            assert(longer.last() == c);
        }
        value = value * 10 + (c as u32 - '0' as u32);
        i = i + 1;
        if value > 65535 {
            proof {
                if forall|j: int| 0 <= j < digits.len() ==> is_digit(#[trigger] digits[j]) {
                    lemma_longer_digits_are_larger(digits, i - start);
                }
            }
            return None;
        }
    }
    assert(digits.take(i - start) =~= digits);
    Some(value as u16)
}

/// Copies of texts, in order.
pub fn copied_all(texts: &[String]) -> (copy: Vec<String>)
    ensures
        copy.deep_view() == texts.deep_view(),
{
    let mut copy: Vec<String> = Vec::new();
    let mut i: usize = 0;
    while i < texts.len()
        invariant
            i <= texts.len(),
            copy.len() == i,
            forall|j: int| 0 <= j < i ==> (#[trigger] copy@[j])@ == texts@[j]@,
        decreases texts.len() - i,
    {
        copy.push(texts[i].clone());
        i = i + 1;
    }
    assert(copy.deep_view() =~= texts.deep_view());
    copy
}

/// Leading whitespace is a beginning of the text.
pub proof fn lemma_trim_start(s: Seq<char>)
    ensures
        trim_start(s).len() <= s.len(),
        trim_start(s) == s.skip(s.len() - trim_start(s).len()),
        trim_start(s).len() > 0 ==> !whitespace(trim_start(s)[0]),
    decreases s.len(),
{
    if s.len() > 0 && whitespace(s[0]) {
        lemma_trim_start(s.drop_first());
        assert(s.skip(s.len() - trim_start(s).len()) =~= s.drop_first().skip(
            s.drop_first().len() - trim_start(s).len(),
        ));
    } else {
        assert(s.skip(0) =~= s);
    }
}

/// The words of a text: what stands between its whitespace.
pub open spec fn words(s: Seq<char>) -> Seq<Seq<char>>
    decreases s.len(),
{
    let rest = trim_start(s);
    if rest.len() == 0 {
        Seq::empty()
    } else {
        proof {
            lemma_trim_start(s);
            lemma_first_word(rest);
        }
        seq![first_word(rest)] + words(after_first_word(rest))
    }
}

/// Where the whitespace that begins at `from` ends.
fn space_end(chars: &Vec<char>, from: usize) -> (end: usize)
    requires
        from <= chars.len(),
    ensures
        from <= end <= chars.len(),
        chars@.skip(end as int) == trim_start(chars@.skip(from as int)),
{
    let mut i: usize = from;
    while i < chars.len() && chars[i].is_whitespace()
        invariant
            from <= i <= chars.len(),
            trim_start(chars@.skip(from as int)) == trim_start(chars@.skip(i as int)),
        decreases chars.len() - i,
    {
        assert(chars@.skip(i as int).drop_first() =~= chars@.skip(i as int + 1));
        i = i + 1;
    }
    i
}

/// Where the word that begins at `from` ends.
fn word_end(chars: &Vec<char>, from: usize) -> (end: usize)
    requires
        from <= chars.len(),
    ensures
        from <= end <= chars.len(),
        first_word(chars@.skip(from as int)) == chars@.subrange(from as int, end as int),
{
    let mut i: usize = from;
    assert(chars@.subrange(from as int, from as int) + first_word(chars@.skip(from as int))
        =~= first_word(chars@.skip(from as int)));
    while i < chars.len() && !chars[i].is_whitespace()
        invariant
            from <= i <= chars.len(),
            first_word(chars@.skip(from as int)) == chars@.subrange(from as int, i as int)
                + first_word(chars@.skip(i as int)),
        decreases chars.len() - i,
    {
        proof {
            let rest = chars@.skip(i as int);
            assert(rest.drop_first() =~= chars@.skip(i as int + 1));
            assert(chars@.subrange(from as int, i as int) + (seq![rest[0]] + first_word(
                rest.drop_first(),
            )) =~= chars@.subrange(from as int, i + 1) + first_word(rest.drop_first()));
        }
        i = i + 1;
    }
    assert(chars@.subrange(from as int, i as int) + Seq::empty() =~= chars@.subrange(
        from as int,
        i as int,
    ));
    i
}

/// The characters from `start` up to `end` as a text.
pub fn part(chars: &Vec<char>, start: usize, end: usize) -> (text: String)
    requires
        start <= end <= chars.len(),
    ensures
        text@ == chars@.subrange(start as int, end as int),
{
    let mut text = String::new();
    let mut i: usize = start;
    assert(chars@.subrange(start as int, start as int) =~= Seq::empty());
    while i < end
        invariant
            start <= i <= end <= chars.len(),
            text@ == chars@.subrange(start as int, i as int),
        decreases end - i,
    {
        assert(chars@.subrange(start as int, i + 1) =~= chars@.subrange(
            start as int,
            i as int,
        ).push(chars@[i as int]));
        text.push(chars[i]);
        i = i + 1;
    }
    text
}

/// The words of `s`.
pub fn words_of(s: &str) -> (found: Vec<String>)
    ensures
        found.deep_view() == words(s@),
{
    let chars = chars_of(s);
    let mut found: Vec<String> = Vec::new();
    let mut i: usize = space_end(&chars, 0);
    assert(chars@.skip(0) =~= s@);
    assert(found.deep_view() + words(chars@) =~= words(s@));
    proof {
        lemma_trim_start(s@);
        lemma_trimmed_words(s@);
    }
    while i < chars.len()
        invariant
            chars@ == s@,
            i <= chars.len(),
            found.deep_view() + words(s@.skip(i as int)) == words(s@),
            i < chars.len() ==> !whitespace(s@[i as int]),
        decreases chars.len() - i,
    {
        let ghost rest = s@.skip(i as int);
        let ghost before = found.deep_view();
        let end: usize = word_end(&chars, i);
        let next: usize = space_end(&chars, end);
        proof {
            assert(rest[0] == s@[i as int]);
            assert(trim_start(rest) == rest);
            lemma_first_word(rest);
            assert(first_word(rest).len() == end - i);
            assert(first_word(rest).len() > 0) by {
                assert(first_word(rest) == seq![rest[0]] + first_word(rest.drop_first()));
            }
            assert(after_first_word(rest) =~= s@.skip(end as int));
            lemma_trim_start(s@.skip(end as int));
            lemma_trimmed_words(s@.skip(end as int));
            assert(words(rest) == seq![first_word(rest)] + words(s@.skip(next as int)));
        }
        found.push(part(&chars, i, end));
        proof {
            assert(found.deep_view() =~= before.push(first_word(rest)));
            let later = words(s@.skip(next as int));
            assert(before + (seq![first_word(rest)] + later) =~= found.deep_view() + later);
            if next < chars.len() {
                assert(s@.skip(next as int)[0] == s@[next as int]);
            }
        }
        i = next;
    }
    assert(words(s@.skip(i as int)) =~= Seq::empty()) by {
        assert(s@.skip(i as int).len() == 0);
    }
    assert(found.deep_view() =~= words(s@));
    found
}

/// Leading whitespace holds no word.
proof fn lemma_trimmed_words(s: Seq<char>)
    ensures
        words(trim_start(s)) == words(s),
{
    lemma_trim_start(s);
    let rest = trim_start(s);
    assert(trim_start(rest) == rest);
}

/// No word is empty, and together they are no longer than the text.
pub proof fn lemma_words(s: Seq<char>)
    ensures
        forall|i: int| 0 <= i < words(s).len() ==> (#[trigger] words(s)[i]).len() > 0,
        total_len(words(s)) <= s.len(),
    decreases s.len(),
{
    let rest = trim_start(s);
    lemma_trim_start(s);
    if rest.len() > 0 {
        lemma_first_word(rest);
        assert(first_word(rest) == seq![rest[0]] + first_word(rest.drop_first()));
        let later = after_first_word(rest);
        lemma_words(later);
        let first = first_word(rest);
        assert(words(s) == seq![first] + words(later));
        assert forall|i: int| 0 <= i < words(s).len() implies (#[trigger] words(s)[i]).len() > 0 by {
            if i > 0 {
                assert(words(s)[i] == words(later)[i - 1]);
            }
        }
        lemma_total_len(first, words(later));
    }
}

/// The characters of several texts together.
pub open spec fn total_len(parts: Seq<Seq<char>>) -> nat
    decreases parts.len(),
{
    if parts.len() == 0 {
        0
    } else {
        total_len(parts.drop_last()) + parts.last().len()
    }
}

proof fn lemma_total_len(first: Seq<char>, rest: Seq<Seq<char>>)
    ensures
        total_len(seq![first] + rest) == first.len() + total_len(rest),
    decreases rest.len(),
{
    let all = seq![first] + rest;
    if rest.len() == 0 {
        assert(all =~= seq![first]);
        assert(all.drop_last() =~= Seq::empty());
        reveal_with_fuel(total_len, 2);
    } else {
        lemma_total_len(first, rest.drop_last());
        assert(all.drop_last() =~= seq![first] + rest.drop_last());
    }
}

/// Text of whitespace alone.
pub open spec fn blank(s: Seq<char>) -> bool {
    forall|i: int| 0 <= i < s.len() ==> whitespace(#[trigger] s[i])
}

pub proof fn lemma_trim_start_of(a: Seq<char>, core: Seq<char>)
    requires
        blank(a),
        core.len() > 0 ==> !whitespace(core[0]),
    ensures
        trim_start(a + core) == core,
    decreases a.len(),
{
    if a.len() > 0 {
        assert((a + core).drop_first() =~= a.drop_first() + core);
        assert((a + core)[0] == a[0]);
        assert forall|i: int| 0 <= i < a.drop_first().len() implies whitespace(
            #[trigger] a.drop_first()[i],
        ) by {
            assert(a.drop_first()[i] == a[i + 1]);
        }
        lemma_trim_start_of(a.drop_first(), core);
    } else {
        assert(a + core =~= core);
    }
}

proof fn lemma_trim_end_of(core: Seq<char>, b: Seq<char>)
    requires
        blank(b),
        core.len() > 0 ==> !whitespace(core.last()),
    ensures
        trim_end(core + b) == core,
    decreases b.len(),
{
    if b.len() > 0 {
        assert((core + b).drop_last() =~= core + b.drop_last());
        assert((core + b).last() == b.last());
        assert(whitespace(b[b.len() - 1]));
        lemma_trim_end_of(core, b.drop_last());
    } else {
        assert(core + b =~= core);
    }
}

/// Trimming takes away the whitespace around a text, and nothing of the text.
pub proof fn law_trimming_keeps_the_text(a: Seq<char>, core: Seq<char>, b: Seq<char>)
    requires
        blank(a),
        blank(b),
        core.len() > 0 ==> !whitespace(core[0]) && !whitespace(core.last()),
    ensures
        trim(a + core + b) == core,
        trim_start(a + core) == core,
        trim_end(core + b) == core,
{
    if core.len() > 0 {
        assert(a + core + b =~= a + (core + b));
        lemma_trim_start_of(a, core + b);
    } else {
        assert forall|i: int| 0 <= i < (a + b).len() implies whitespace(
            #[trigger] (a + b)[i],
        ) by {
            if i < a.len() {
                assert((a + b)[i] == a[i]);
            } else {
                assert((a + b)[i] == b[i - a.len()]);
            }
        }
        assert(a + core + b =~= (a + b) + core);
        lemma_trim_start_of(a + b, core);
    }
    lemma_trim_start_of(a, core);
    lemma_trim_end_of(core, b);
    if core.len() == 0 {
        assert(core + b =~= b);
        assert(trim_end(Seq::<char>::empty()) == Seq::<char>::empty());
        assert(core =~= Seq::<char>::empty());
    }
}

/// The first word of a text reaches up to its first whitespace, and what follows
/// begins there.
pub proof fn law_the_first_word_ends_at_whitespace(word: Seq<char>, rest: Seq<char>)
    requires
        forall|i: int| 0 <= i < word.len() ==> !whitespace(#[trigger] word[i]),
        rest.len() > 0 ==> whitespace(rest[0]),
    ensures
        first_word(word + rest) == word,
        after_first_word(word + rest) == rest,
    decreases word.len(),
{
    if word.len() > 0 {
        let later = word.drop_first();
        assert forall|i: int| 0 <= i < later.len() implies !whitespace(#[trigger] later[i]) by {
            assert(later[i] == word[i + 1]);
        }
        law_the_first_word_ends_at_whitespace(later, rest);
        assert((word + rest).drop_first() =~= later + rest);
        assert((word + rest)[0] == word[0]);
        assert(seq![word[0]] + later =~= word);
    } else {
        assert(word + rest =~= rest);
        assert(first_word(rest) =~= Seq::empty());
    }
    assert((word + rest).skip(word.len() as int) =~= rest);
}

/// Names are the same exactly if they have the same length and each two characters
/// are equal or the two cases of one ASCII letter.
pub proof fn law_names_differ_in_case_alone(a: Seq<char>, b: Seq<char>)
    ensures
        same_name(a, b) <==> a.len() == b.len() && forall|i: int|
            0 <= i < a.len() ==> {
                ||| #[trigger] a[i] == b[i]
                ||| 'A' <= a[i] && a[i] <= 'Z' && b[i] as u32 == a[i] as u32 + 32
                ||| 'A' <= b[i] && b[i] <= 'Z' && a[i] as u32 == b[i] as u32 + 32
            },
{
    if same_name(a, b) {
        assert(lower(a).len() == lower(b).len());
        assert forall|i: int| 0 <= i < a.len() implies {
            ||| #[trigger] a[i] == b[i]
            ||| 'A' <= a[i] && a[i] <= 'Z' && b[i] as u32 == a[i] as u32 + 32
            ||| 'A' <= b[i] && b[i] <= 'Z' && a[i] as u32 == b[i] as u32 + 32
        } by {
            assert(lower(a)[i] == lower_char(a[i]));
            assert(lower(b)[i] == lower_char(b[i]));
        }
    } else if a.len() == b.len() && forall|i: int|
        0 <= i < a.len() ==> {
            ||| #[trigger] a[i] == b[i]
            ||| 'A' <= a[i] && a[i] <= 'Z' && b[i] as u32 == a[i] as u32 + 32
            ||| 'A' <= b[i] && b[i] <= 'Z' && a[i] as u32 == b[i] as u32 + 32
        } {
        assert forall|i: int| 0 <= i < a.len() implies lower(a)[i] == lower(b)[i] by {
            assert(a[i] == b[i] || a[i] != b[i]);
        }
        assert(lower(a) =~= lower(b));
    }
}

/// The parts of a joined text stand in their order with one space between each two.
pub proof fn law_parts_are_joined_by_spaces(parts: Seq<Seq<char>>, part: Seq<char>)
    ensures
        spaced(Seq::empty()) == Seq::<char>::empty(),
        spaced(seq![part]) == part,
        parts.len() > 0 ==> spaced(parts.push(part)) == spaced(parts) + seq![' '] + part,
{
    if parts.len() > 0 {
        assert(parts.push(part).drop_last() =~= parts);
        assert(spaced(parts).push(' ') + part =~= spaced(parts) + seq![' '] + part);
    }
}

/// Decimal digits spell the number that they are written for.
pub proof fn law_digits_spell_their_number(n: nat)
    ensures
        decimal(n).len() > 0,
        forall|i: int| 0 <= i < decimal(n).len() ==> '0' <= #[trigger] decimal(n)[i] && decimal(
            n,
        )[i] <= '9',
        digits_value(decimal(n)) == n,
        n <= u16::MAX ==> parsed_u16(decimal(n)) == Some(n as u16),
    decreases n,
{
    if n < 10 {
        assert(decimal(n).drop_last() =~= Seq::empty());
        reveal_with_fuel(digits_value, 2);
    } else {
        law_digits_spell_their_number(n / 10);
        let shorter = decimal(n / 10);
        assert(decimal(n).drop_last() =~= shorter);
        assert forall|i: int| 0 <= i < decimal(n).len() implies '0' <= #[trigger] decimal(n)[i]
            && decimal(n)[i] <= '9' by {
            if i < shorter.len() {
                assert(decimal(n)[i] == shorter[i]);
            }
        }
    }
    assert(decimal(n)[0] != '+');
    assert forall|i: int| 0 <= i < decimal(n).len() implies is_digit(#[trigger] decimal(n)[i]) by {
        assert('0' <= decimal(n)[i]);
    }
}

/// Trailing characters of a set are taken away, and nothing else.
pub proof fn law_trailing_characters_are_dropped(
    core: Seq<char>,
    tail: Seq<char>,
    set: Seq<char>,
)
    requires
        core.len() > 0 ==> !set.contains(core.last()),
        forall|i: int| 0 <= i < tail.len() ==> set.contains(#[trigger] tail[i]),
    ensures
        trim_end_set(core + tail, set) == core,
    decreases tail.len(),
{
    if tail.len() > 0 {
        assert((core + tail).drop_last() =~= core + tail.drop_last());
        assert((core + tail).last() == tail[tail.len() - 1]);
        law_trailing_characters_are_dropped(core, tail.drop_last(), set);
    } else {
        assert(core + tail =~= core);
    }
}

/// Whitespace in front does not change how a text begins once it is trimmed.
pub proof fn lemma_trim_of(a: Seq<char>, rest: Seq<char>)
    requires
        blank(a),
        rest.len() > 0,
        !whitespace(rest[0]),
    ensures
        trim_start(a + rest) == rest,
        trim(a + rest).len() > 0,
        trim(a + rest)[0] == rest[0],
{
    lemma_trim_start_of(a, rest);
    lemma_trim_end_keeps_first(rest);
}

proof fn lemma_trim_end_keeps_first(s: Seq<char>)
    requires
        s.len() > 0,
        !whitespace(s[0]),
    ensures
        trim_end(s).len() > 0,
        trim_end(s)[0] == s[0],
    decreases s.len(),
{
    if whitespace(s.last()) {
        assert(s.drop_last()[0] == s[0]);
        lemma_trim_end_keeps_first(s.drop_last());
    }
}

/// The words of a text are its stretches without whitespace, in their order.
pub proof fn law_words_are_what_whitespace_parts(a: Seq<char>, word: Seq<char>, rest: Seq<char>)
    requires
        blank(a),
        word.len() > 0,
        forall|i: int| 0 <= i < word.len() ==> !whitespace(#[trigger] word[i]),
        rest.len() > 0 ==> whitespace(rest[0]),
    ensures
        words(a) == Seq::<Seq<char>>::empty(),
        words(a + word + rest) == seq![word] + words(rest),
{
    assert(a + word + rest =~= a + (word + rest));
    assert((word + rest)[0] == word[0]);
    lemma_trim_start_of(a, word + rest);
    law_the_first_word_ends_at_whitespace(word, rest);
    lemma_trim_start_of(a, Seq::empty());
    assert(a + Seq::<char>::empty() =~= a);
}

/// Blanks, tabs and line ends are whitespace, and no visible character of ASCII is.
/// Control characters are those below the blank, the deletion and the C1 codes.
pub proof fn law_characters_have_their_classes(c: char)
    ensures
        whitespace(' ') && whitespace('\t') && whitespace('\r') && whitespace('\n'),
        '!' <= c && c <= '~' ==> !whitespace(c) && !control(c),
        (c as u32) < 0x20 ==> control(c),
        c == ' ' ==> !control(c),
        0x7f <= c as u32 <= 0x9f ==> control(c),
        c as u32 > 0x9f ==> !control(c),
        line_breaking(c) <==> c == '\r' || c == '\n' || c == '\0',
{
}

/// Folding makes ASCII capitals small and keeps every other character, so folding
/// twice is folding once.
pub proof fn law_folding_makes_capitals_small(s: Seq<char>, i: int)
    requires
        0 <= i < s.len(),
    ensures
        lower(s).len() == s.len(),
        'A' <= s[i] && s[i] <= 'Z' ==> lower(s)[i] as u32 == s[i] as u32 + 32,
        !('A' <= s[i] && s[i] <= 'Z') ==> lower(s)[i] == s[i],
        lower(lower(s)) == lower(s),
{
    assert(lower(lower(s)) =~= lower(s)) by {
        assert forall|k: int| 0 <= k < s.len() implies lower(lower(s))[k] == lower(s)[k] by {
            let c = s[k];
            if 'A' <= c && c <= 'Z' {
                assert((c as u8 + 32) as char as u32 == c as u32 + 32);
            }
        }
    }
}

/// A text of digits alone, behind a plus sign or not, is the number that they spell,
/// if it is small enough; any other text is none.
pub proof fn law_only_digits_are_numbers(digits: Seq<char>, i: int)
    requires
        digits.len() > 0,
        digits[0] != '+',
    ensures
        ({
            let all = forall|k: int|
                0 <= k < digits.len() ==> '0' <= #[trigger] digits[k] && digits[k] <= '9';
            &&& all && digits_value(digits) <= 65535 ==> parsed_u16(digits) == Some(
                digits_value(digits) as u16,
            ) && parsed_u16(seq!['+'] + digits) == Some(digits_value(digits) as u16)
            &&& all && digits_value(digits) > 65535 ==> parsed_u16(digits) is None && parsed_u16(
                seq!['+'] + digits,
            ) is None
            &&& 0 <= i < digits.len() && !('0' <= digits[i] && digits[i] <= '9') ==> parsed_u16(
                digits,
            ) is None && parsed_u16(seq!['+'] + digits) is None
        }),
        parsed_u16(Seq::empty()) is None,
{
    let signed = seq!['+'] + digits;
    assert(signed[0] == '+');
    assert(signed.drop_first() =~= digits);
    assert(signed.skip(1) =~= digits);
    if forall|k: int| 0 <= k < digits.len() ==> '0' <= #[trigger] digits[k] && digits[k] <= '9' {
        assert forall|k: int| 0 <= k < digits.len() implies is_digit(#[trigger] digits[k]) by {
            assert('0' <= digits[k]);
        }
    }
    if 0 <= i < digits.len() && !('0' <= digits[i] && digits[i] <= '9') {
        assert(!is_digit(digits[i]));
    }
}

} // verus!
