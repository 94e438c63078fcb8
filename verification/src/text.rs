//! Character-level facts about texts: white space, affixes, decimal and
//! debug renderings, and joining.
use vstd::prelude::*;
use vstd::string::StringExecFns;

verus! {

/// The code points that carry the Unicode `White_Space` property.
pub open spec fn is_white_space(c: char) -> bool {
    let u = c as u32;
    ||| 0x09 <= u <= 0x0D
    ||| u == 0x20
    ||| u == 0x85
    ||| u == 0xA0
    ||| u == 0x1680
    ||| 0x2000 <= u <= 0x200A
    ||| u == 0x2028
    ||| u == 0x2029
    ||| u == 0x202F
    ||| u == 0x205F
    ||| u == 0x3000
}

/// Whether `c` has the Unicode `White_Space` property.
pub fn is_white_space_char(c: char) -> (b: bool)
    ensures
        b == is_white_space(c),
{
    let u = c as u32;
    (0x09 <= u && u <= 0x0D) || u == 0x20 || u == 0x85 || u == 0xA0 || u == 0x1680
        || (0x2000 <= u && u <= 0x200A) || u == 0x2028 || u == 0x2029 || u == 0x202F
        || u == 0x205F || u == 0x3000
}

/// A text is blank when every one of its characters is white space
/// (so that trimming white space from both ends leaves nothing).
pub open spec fn is_blank(s: Seq<char>) -> bool {
    forall|i: int| 0 <= i < s.len() ==> is_white_space(#[trigger] s[i])
}

/// The characters of `s`, in order.
pub fn chars_of(s: &str) -> (v: Vec<char>)
    ensures
        v@ == s@,
{
    let mut v: Vec<char> = Vec::new();
    for c in it: s.chars()
        invariant
            v@ == it.seq().take(it.index() as int),
    {
        v.push(c);
    }
    v
}

/// Whether `s` is blank.
pub fn is_blank_text(s: &str) -> (b: bool)
    ensures
        b == is_blank(s@),
{
    let cs = chars_of(s);
    let n = cs.len();
    for i in 0..n
        invariant
            n == cs@.len(),
            cs@ == s@,
            forall|j: int| 0 <= j < i ==> is_white_space(#[trigger] cs@[j]),
    {
        if !is_white_space_char(cs[i]) {
            return false;
        }
    }
    true
}

/// Whether the two character sequences are equal.
pub fn same_chars(a: &Vec<char>, b: &Vec<char>) -> (r: bool)
    ensures
        r == (a@ == b@),
{
    if a.len() != b.len() {
        return false;
    }
    let n = a.len();
    for i in 0..n
        invariant
            n == a@.len(),
            n == b@.len(),
            forall|j: int| 0 <= j < i ==> a@[j] == b@[j],
    {
        if a[i] != b[i] {
            return false;
        }
    }
    assert(a@ =~= b@);
    true
}

/// Whether the two texts are equal.
pub fn same_text(a: &str, b: &str) -> (r: bool)
    ensures
        r == (a@ == b@),
{
    same_chars(&chars_of(a), &chars_of(b))
}

/// `p` stands in `s` starting at position `i`.
pub open spec fn occurs_at(s: Seq<char>, p: Seq<char>, i: int) -> bool {
    &&& 0 <= i
    &&& i + p.len() <= s.len()
    &&& s.subrange(i, i + p.len()) == p
}

/// `p` is a prefix of `s`.
pub open spec fn has_prefix(s: Seq<char>, p: Seq<char>) -> bool {
    occurs_at(s, p, 0)
}

/// `p` is a suffix of `s`.
pub open spec fn has_suffix(s: Seq<char>, p: Seq<char>) -> bool {
    occurs_at(s, p, s.len() - p.len())
}

/// `p` is a contiguous part of `s`.
pub open spec fn has_infix(s: Seq<char>, p: Seq<char>) -> bool {
    exists|i: int| occurs_at(s, p, i)
}

/// Whether `p` stands in `s` at position `i`.
fn occurs_at_index(s: &Vec<char>, p: &Vec<char>, i: usize) -> (r: bool)
    requires
        i + p@.len() <= s@.len(),
    ensures
        r == occurs_at(s@, p@, i as int),
{
    let n = p.len();
    for k in 0..n
        invariant
            n == p@.len(),
            i + n <= s.len(),
            forall|j: int| 0 <= j < k ==> s@[i + j] == p@[j],
    {
        if s[i + k] != p[k] {
            assert(s@.subrange(i as int, i + n)[k as int] != p@[k as int]);
            return false;
        }
    }
    assert(s@.subrange(i as int, i + n) =~= p@);
    true
}

/// Whether `p` is a prefix of `s`.
pub fn starts_with_text(s: &str, p: &str) -> (r: bool)
    ensures
        r == has_prefix(s@, p@),
{
    let sc = chars_of(s);
    let pc = chars_of(p);
    if pc.len() > sc.len() {
        return false;
    }
    occurs_at_index(&sc, &pc, 0)
}

/// Whether `p` is a suffix of `s`.
pub fn ends_with_text(s: &str, p: &str) -> (r: bool)
    ensures
        r == has_suffix(s@, p@),
{
    let sc = chars_of(s);
    let pc = chars_of(p);
    if pc.len() > sc.len() {
        return false;
    }
    occurs_at_index(&sc, &pc, sc.len() - pc.len())
}

/// Whether `p` stands somewhere in `s`.
pub fn contains_text(s: &str, p: &str) -> (r: bool)
    ensures
        r == has_infix(s@, p@),
{
    let sc = chars_of(s);
    let pc = chars_of(p);
    if pc.len() > sc.len() {
        return false;
    }
    let last = sc.len() - pc.len();
    for i in 0..last
        invariant
            last + pc@.len() == sc@.len(),
            sc@ == s@,
            pc@ == p@,
            forall|j: int| 0 <= j < i ==> !occurs_at(s@, p@, j),
    {
        if occurs_at_index(&sc, &pc, i) {
            return true;
        }
    }
    if occurs_at_index(&sc, &pc, last) {
        return true;
    }
    proof {
        lemma_no_occurrence(s@, p@);
    }
    false
}

proof fn lemma_no_occurrence(s: Seq<char>, p: Seq<char>)
    requires
        p.len() <= s.len(),
        forall|j: int| 0 <= j <= s.len() - p.len() ==> !occurs_at(s, p, j),
    ensures
        !has_infix(s, p),
{
}

/// The decimal digit for `d`, which is below ten.
pub open spec fn digit_char(d: nat) -> char {
    if d == 0 { '0' }
    else if d == 1 { '1' }
    else if d == 2 { '2' }
    else if d == 3 { '3' }
    else if d == 4 { '4' }
    else if d == 5 { '5' }
    else if d == 6 { '6' }
    else if d == 7 { '7' }
    else if d == 8 { '8' }
    else { '9' }
}

/// The decimal rendering of `n`: its digits, most significant first, with
/// no leading zero.
pub open spec fn decimal(n: nat) -> Seq<char>
    decreases n,
{
    if n < 10 {
        seq![digit_char(n)]
    } else {
        decimal(n / 10).push(digit_char(n % 10))
    }
}

/// Appends `c` to `s`.
#[verifier::external_body]
fn push_char(s: &mut String, c: char)
    ensures
        final(s)@ == old(s)@.push(c),
{
    s.push(c);
}

fn digit_of(d: usize) -> (c: char)
    requires
        d < 10,
    ensures
        c == digit_char(d as nat),
{
    if d == 0 { '0' }
    else if d == 1 { '1' }
    else if d == 2 { '2' }
    else if d == 3 { '3' }
    else if d == 4 { '4' }
    else if d == 5 { '5' }
    else if d == 6 { '6' }
    else if d == 7 { '7' }
    else if d == 8 { '8' }
    else { '9' }
}

/// Appends the decimal rendering of `n` to `s`.
pub fn push_decimal(s: &mut String, n: usize)
    ensures
        final(s)@ == old(s)@ + decimal(n as nat),
    decreases n,
{
    if n >= 10 {
        push_decimal(s, n / 10);
    }
    push_char(s, digit_of(n % 10));
    assert(s@ =~= old(s)@ + decimal(n as nat));
}

/// Appends `t` to `s`.
pub fn push_text(s: &mut String, t: &str)
    ensures
        final(s)@ == old(s)@ + t@,
{
    s.append(t);
}

/// What Rust's `Debug` formatting prints for a string slice: the text in
/// double quotes, with quotes, backslashes and unprintable characters escaped.
pub uninterp spec fn debug_form(s: Seq<char>) -> Seq<char>;

/// The `Debug` rendering of `t`, by `format!("{:?}", t)`. Its contract
/// names the result and says nothing of its contents.
#[verifier::external_body]
fn debug_form_of(t: &str) -> (r: String)
    ensures
        r@ == debug_form(t@),
{
    format!("{:?}", t)
}

/// The items joined, with `sep` between each two neighbours.
pub open spec fn joined(items: Seq<Seq<char>>, sep: Seq<char>) -> Seq<char>
    decreases items.len(),
{
    if items.len() == 0 {
        Seq::empty()
    } else if items.len() == 1 {
        items[0]
    } else {
        joined(items.drop_last(), sep) + sep + items.last()
    }
}

/// What Rust's `Debug` formatting prints for a list of strings: each item
/// in its `Debug` form, separated by `", "`, between square brackets.
pub open spec fn list_debug_form(items: Seq<Seq<char>>) -> Seq<char> {
    "["@ + joined(items.map_values(|t: Seq<char>| debug_form(t)), ", "@) + "]"@
}

/// The views of a list of strings.
pub open spec fn texts(v: Seq<String>) -> Seq<Seq<char>> {
    v.map_values(|s: String| s@)
}

/// Appends the `Debug` rendering of the list `items` to `s`.
pub fn push_list_debug(s: &mut String, items: &Vec<String>)
    ensures
        final(s)@ == old(s)@ + list_debug_form(texts(items@)),
{
    let ghost forms = texts(items@).map_values(|t: Seq<char>| debug_form(t));
    let mut body = String::new();
    let n = items.len();
    for i in 0..n
        invariant
            n == items@.len(),
            forms == texts(items@).map_values(|t: Seq<char>| debug_form(t)),
            body@ == joined(forms.take(i as int), ", "@),
    {
        if i > 0 {
            push_text(&mut body, ", ");
        }
        let form = debug_form_of(items[i].as_str());
        push_text(&mut body, form.as_str());
        assert(forms.take(i + 1).drop_last() =~= forms.take(i as int));
        assert(forms.take(i + 1).last() == forms[i as int]);
        if i == 0 {
            assert(body@ =~= forms.take(1)[0]);
        }
    }
    assert(forms.take(n as int) =~= forms);
    push_text(s, "[");
    push_text(s, body.as_str());
    push_text(s, "]");
    assert(s@ =~= old(s)@ + list_debug_form(texts(items@)));
}

/// The modulus of the text hash, a prime.
pub open spec fn hash_modulus() -> nat {
    1_000_000_007
}

/// A polynomial hash of a text's characters. Equal texts hash alike.
pub open spec fn text_hash(s: Seq<char>) -> nat
    decreases s.len(),
{
    if s.len() == 0 {
        0
    } else {
        ((text_hash(s.drop_last()) * 131 + s.last() as u32 as nat) % hash_modulus()) as nat
    }
}

/// The hash of a text's characters.
pub fn hash_chars(s: &Vec<char>) -> (h: u64)
    ensures
        h == text_hash(s@),
{
    let mut h: u64 = 0;
    let n = s.len();
    for i in 0..n
        invariant
            n == s@.len(),
            h == text_hash(s@.take(i as int)),
            h < hash_modulus(),
    {
        let c = s[i] as u32;
        assert(s@.take(i + 1).drop_last() =~= s@.take(i as int));
        h = (h * 131 + c as u64) % 1_000_000_007;
    }
    assert(s@.take(n as int) =~= s@);
    h
}

} // verus!
