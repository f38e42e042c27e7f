use vstd::prelude::*;

verus! {

broadcast use vstd::string::axiom_spec_iter;

/// The characters of a string slice, in order.
pub fn chars_of(s: &str) -> (v: Vec<char>)
    ensures
        v@ == s@,
{
    let mut v: Vec<char> = Vec::new();
    for c in it: s.chars()
        invariant
            v@ == it.seq().take(it.index() as int),
            it.seq() == s@,
    {
        v.push(c);
    }
    v
}


/// The character sequences of a sequence of strings.
pub open spec fn strings_view(v: Seq<String>) -> Seq<Seq<char>> {
    v.map_values(|s: String| s@)
}

/// `String::push`: the contract claims that the character is appended at the end.
#[verifier::external_body]
fn push_char(s: &mut String, c: char)
    ensures
        final(s)@ == old(s)@.push(c),
{
    s.push(c);
}

/// The string made of the given characters, in order.
pub fn string_of(chars: &Vec<char>) -> (s: String)
    ensures
        s@ == chars@,
{
    let mut s = String::new();
    let mut i: usize = 0;
    while i < chars.len()
        invariant
            i <= chars.len(),
            s@ == chars@.take(i as int),
        decreases chars.len() - i,
    {
        push_char(&mut s, chars[i]);
        assert(chars@.take(i + 1) =~= chars@.take(i as int).push(chars@[i as int]));
        i = i + 1;
    }
    assert(chars@.take(i as int) =~= chars@);
    s
}

/// Whether `c` occurs in `s`.
pub fn contains_char(s: &str, c: char) -> (r: bool)
    ensures
        r == s@.contains(c),
{
    let v = chars_of(s);
    let mut i: usize = 0;
    while i < v.len()
        invariant
            i <= v.len(),
            v@ == s@,
            forall|k: int| 0 <= k < i ==> v@[k] != c,
        decreases v.len() - i,
    {
        if v[i] == c {
            assert(s@[i as int] == c);
            return true;
        }
        i = i + 1;
    }
    false
}

/// Whether the character sequence `s` begins with `prefix`.
pub open spec fn has_prefix(s: Seq<char>, prefix: Seq<char>) -> bool {
    prefix.len() <= s.len() && s.take(prefix.len() as int) == prefix
}

/// Whether `s` begins with `prefix`.
pub fn starts_with(s: &str, prefix: &str) -> (r: bool)
    ensures
        r == has_prefix(s@, prefix@),
{
    let v = chars_of(s);
    let p = chars_of(prefix);
    if p.len() > v.len() {
        return false;
    }
    let mut i: usize = 0;
    while i < p.len()
        invariant
            i <= p.len() <= v.len(),
            v@ == s@,
            p@ == prefix@,
            forall|k: int| 0 <= k < i ==> v@[k] == p@[k],
        decreases p.len() - i,
    {
        if v[i] != p[i] {
            assert(s@.take(prefix@.len() as int)[i as int] != prefix@[i as int]);
            return false;
        }
        i = i + 1;
    }
    assert(s@.take(prefix@.len() as int) =~= prefix@);
    true
}

/// Whether `a` and `b` hold the same characters.
pub fn same_text(a: &str, b: &str) -> (r: bool)
    ensures
        r == (a@ == b@),
{
    let x = chars_of(a);
    let y = chars_of(b);
    if x.len() != y.len() {
        return false;
    }
    let mut i: usize = 0;
    while i < x.len()
        invariant
            i <= x.len() == y.len(),
            x@ == a@,
            y@ == b@,
            forall|k: int| 0 <= k < i ==> x@[k] == y@[k],
        decreases x.len() - i,
    {
        if x[i] != y[i] {
            return false;
        }
        i = i + 1;
    }
    assert(x@ =~= y@);
    true
}


/// Lexicographic order on character sequences, comparing characters by their code
/// points (the order of `String`'s `Ord`, since UTF-8 preserves code point order).
pub open spec fn chars_lt(a: Seq<char>, b: Seq<char>) -> bool
    decreases a.len(),
{
    if a.len() == 0 {
        b.len() > 0
    } else if b.len() == 0 {
        false
    } else if a[0] != b[0] {
        (a[0] as u32) < (b[0] as u32)
    } else {
        chars_lt(a.drop_first(), b.drop_first())
    }
}

pub proof fn lemma_chars_lt_irreflexive(a: Seq<char>)
    ensures
        !chars_lt(a, a),
    decreases a.len(),
{
    if a.len() > 0 {
        lemma_chars_lt_irreflexive(a.drop_first());
    }
}

pub proof fn lemma_chars_lt_total(a: Seq<char>, b: Seq<char>)
    ensures
        a != b ==> chars_lt(a, b) || chars_lt(b, a),
        chars_lt(a, b) ==> !chars_lt(b, a),
    decreases a.len(),
{
    if a.len() > 0 && b.len() > 0 {
        if a[0] == b[0] {
            lemma_chars_lt_total(a.drop_first(), b.drop_first());
            if a != b {
                assert(a.drop_first() != b.drop_first()) by {
                    if a.drop_first() == b.drop_first() {
                        assert(a =~= seq![a[0]] + a.drop_first());
                        assert(b =~= seq![b[0]] + b.drop_first());
                    }
                }
            }
        } else {
            vstd::utf8::char_u32_cast(a[0], a[0] as u32);
            vstd::utf8::char_u32_cast(b[0], b[0] as u32);
            assert((a[0] as u32) != (b[0] as u32));
        }
    } else if a.len() == 0 && b.len() == 0 {
        assert(a =~= b);
    }
}

pub proof fn lemma_chars_lt_transitive(a: Seq<char>, b: Seq<char>, c: Seq<char>)
    requires
        chars_lt(a, b),
        chars_lt(b, c),
    ensures
        chars_lt(a, c),
    decreases a.len(),
{
    if a.len() > 0 && b.len() > 0 && c.len() > 0 {
        if a[0] == b[0] && b[0] == c[0] {
            lemma_chars_lt_transitive(a.drop_first(), b.drop_first(), c.drop_first());
        }
    }
}

/// Whether `a` comes strictly before `b` in lexicographic order.
pub fn str_lt(a: &str, b: &str) -> (r: bool)
    ensures
        r == chars_lt(a@, b@),
{
    let x = chars_of(a);
    let y = chars_of(b);
    let mut i: usize = 0;
    assert(x@.skip(0) =~= x@);
    assert(y@.skip(0) =~= y@);
    while i < x.len() && i < y.len()
        invariant
            i <= x.len(),
            i <= y.len(),
            x@ == a@,
            y@ == b@,
            chars_lt(x@.skip(i as int), y@.skip(i as int)) == chars_lt(x@, y@),
        decreases x.len() - i,
    {
        let p = x[i];
        let q = y[i];
        if p != q {
            assert(x@.skip(i as int)[0] == p);
            assert(y@.skip(i as int)[0] == q);
            assert(chars_lt(x@.skip(i as int), y@.skip(i as int)) == ((p as u32) < (q as u32)));
            return (p as u32) < (q as u32);
        }
        assert(x@.skip(i as int).drop_first() =~= x@.skip(i + 1));
        assert(y@.skip(i as int).drop_first() =~= y@.skip(i + 1));
        i = i + 1;
    }
    assert(x@.skip(i as int).len() == x.len() - i);
    i == x.len() && i < y.len()
}


/// The characters of `s` before the first `c` (all of `s` where it holds no `c`).
pub open spec fn prefix_before(s: Seq<char>, c: char) -> Seq<char>
    decreases s.len(),
{
    if s.len() == 0 {
        s
    } else if s[0] == c {
        Seq::empty()
    } else {
        seq![s[0]] + prefix_before(s.drop_first(), c)
    }
}

/// The characters of `s` after the first `c` (nothing where it holds no `c`).
pub open spec fn suffix_after(s: Seq<char>, c: char) -> Seq<char>
    decreases s.len(),
{
    if s.len() == 0 {
        s
    } else if s[0] == c {
        s.drop_first()
    } else {
        suffix_after(s.drop_first(), c)
    }
}

/// The second field of `s` split at `c` (`str::split(c).nth(1)`): the text between
/// the first and the second `c`; none where `s` holds no `c`.
pub open spec fn second_field(s: Seq<char>, c: char) -> Option<Seq<char>> {
    if s.contains(c) {
        Some(prefix_before(suffix_after(s, c), c))
    } else {
        None
    }
}

proof fn lemma_suffix_after(s: Seq<char>, c: char, a: int)
    requires
        0 <= a < s.len(),
        s[a] == c,
        forall|k: int| 0 <= k < a ==> s[k] != c,
    ensures
        suffix_after(s, c) == s.skip(a + 1),
    decreases a,
{
    if a == 0 {
        assert(s.drop_first() =~= s.skip(1));
    } else {
        lemma_suffix_after(s.drop_first(), c, a - 1);
        assert(s.drop_first().skip(a) =~= s.skip(a + 1));
    }
}

proof fn lemma_prefix_before(s: Seq<char>, c: char, j: int)
    requires
        0 <= j <= s.len(),
        j == s.len() || s[j] == c,
        forall|k: int| 0 <= k < j ==> s[k] != c,
    ensures
        prefix_before(s, c) == s.take(j),
    decreases j,
{
    if j == 0 {
        assert(s.take(0) =~= Seq::<char>::empty());
    } else {
        lemma_prefix_before(s.drop_first(), c, j - 1);
        assert(seq![s[0]] + s.drop_first().take(j - 1) =~= s.take(j));
    }
}

/// `str::split(c).nth(1)` (see `second_field`).
pub fn split_second(s: &str, c: char) -> (r: Option<String>)
    ensures
        r.deep_view() == second_field(s@, c),
{
    let v = chars_of(s);
    let mut a: usize = 0;
    while a < v.len() && v[a] != c
        invariant
            a <= v.len(),
            v@ == s@,
            forall|k: int| 0 <= k < a ==> v@[k] != c,
        decreases v.len() - a,
    {
        a = a + 1;
    }
    if a == v.len() {
        assert(!s@.contains(c));
        return None;
    }
    proof {
        lemma_suffix_after(v@, c, a as int);
    }
    let ghost rest = v@.skip(a + 1);
    let mut out: Vec<char> = Vec::new();
    let mut j: usize = a + 1;
    while j < v.len() && v[j] != c
        invariant
            a < j <= v.len(),
            v@ == s@,
            rest == v@.skip(a + 1),
            out@ == rest.take(j - a - 1),
            forall|k: int| 0 <= k < j - a - 1 ==> rest[k] != c,
        decreases v.len() - j,
    {
        out.push(v[j]);
        assert(rest.take(j - a) =~= rest.take(j - a - 1).push(rest[j - a - 1]));
        j = j + 1;
    }
    proof {
        lemma_prefix_before(rest, c, j - a - 1);
    }
    Some(string_of(&out))
}

/// The characters of `s` from position `start` on.
pub fn text_from(s: &str, start: usize) -> (r: String)
    requires
        start <= s@.len(),
    ensures
        r@ == s@.skip(start as int),
{
    let v = chars_of(s);
    let mut out: Vec<char> = Vec::new();
    let mut j: usize = start;
    while j < v.len()
        invariant
            start <= j <= v.len(),
            v@ == s@,
            out@ == v@.subrange(start as int, j as int),
        decreases v.len() - j,
    {
        out.push(v[j]);
        assert(v@.subrange(start as int, j + 1) =~= v@.subrange(start as int, j as int).push(v@[j as int]));
        j = j + 1;
    }
    assert(v@.subrange(start as int, j as int) =~= s@.skip(start as int));
    string_of(&out)
}

/// The number of characters of `s`.
pub fn char_count(s: &str) -> (n: usize)
    ensures
        n == s@.len(),
{
    chars_of(s).len()
}

/// The characters of `a` followed by those of `b`.
pub fn concat(a: &str, b: &str) -> (r: String)
    ensures
        r@ == a@ + b@,
{
    let mut v = chars_of(a);
    let w = chars_of(b);
    let mut j: usize = 0;
    let ghost start = v@;
    while j < w.len()
        invariant
            j <= w.len(),
            w@ == b@,
            start == a@,
            v@ == start + w@.take(j as int),
        decreases w.len() - j,
    {
        v.push(w[j]);
        assert(w@.take(j + 1) =~= w@.take(j as int).push(w@[j as int]));
        j = j + 1;
    }
    assert(w@.take(j as int) =~= w@);
    string_of(&v)
}


pub proof fn lemma_suffix_after_shorter(s: Seq<char>, c: char)
    requires
        s.len() > 0,
    ensures
        suffix_after(s, c).len() < s.len(),
    decreases s.len(),
{
    if s[0] != c {
        if s.len() > 1 {
            lemma_suffix_after_shorter(s.drop_first(), c);
        } else {
            assert(s.drop_first().len() == 0);
            assert(suffix_after(s.drop_first(), c).len() == 0);
        }
    }
}


/// Whether the character sequence `s` ends with `suffix`.
pub open spec fn has_suffix(s: Seq<char>, suffix: Seq<char>) -> bool {
    suffix.len() <= s.len() && s.skip(s.len() - suffix.len()) == suffix
}

/// Whether `s` ends with `suffix`.
pub fn ends_with(s: &str, suffix: &str) -> (r: bool)
    ensures
        r == has_suffix(s@, suffix@),
{
    let v = chars_of(s);
    let p = chars_of(suffix);
    if p.len() > v.len() {
        return false;
    }
    let off = v.len() - p.len();
    let mut i: usize = 0;
    while i < p.len()
        invariant
            i <= p.len(),
            off + p.len() == v.len(),
            v@ == s@,
            p@ == suffix@,
            forall|k: int| 0 <= k < i ==> v@[off + k] == p@[k],
        decreases p.len() - i,
    {
        if v[off + i] != p[i] {
            assert(s@.skip(off as int)[i as int] != suffix@[i as int]);
            return false;
        }
        i = i + 1;
    }
    assert(s@.skip(off as int) =~= suffix@);
    true
}

/// The characters of `s` before position `end`.
pub fn text_before(s: &str, end: usize) -> (r: String)
    requires
        end <= s@.len(),
    ensures
        r@ == s@.take(end as int),
{
    let v = chars_of(s);
    let mut out: Vec<char> = Vec::new();
    let mut j: usize = 0;
    while j < end
        invariant
            j <= end <= v.len(),
            v@ == s@,
            out@ == v@.take(j as int),
        decreases end - j,
    {
        out.push(v[j]);
        assert(v@.take(j + 1) =~= v@.take(j as int).push(v@[j as int]));
        j = j + 1;
    }
    string_of(&out)
}


/// Splitting `s` at every `c` from position `i` on, with the fields `done` finished
/// and the field `current` being read.
pub open spec fn fields_from(s: Seq<char>, c: char, i: int, done: Seq<Seq<char>>, current: Seq<char>) -> Seq<Seq<char>>
    decreases s.len() - i,
{
    if i < 0 || i >= s.len() {
        done.push(current)
    } else if s[i] == c {
        fields_from(s, c, i + 1, done.push(current), Seq::empty())
    } else {
        fields_from(s, c, i + 1, done, current.push(s[i]))
    }
}

/// The fields of `s` split at every `c` (`str::split(c)`): one more field than there
/// are `c`s, empty fields included.
pub open spec fn split_fields(s: Seq<char>, c: char) -> Seq<Seq<char>> {
    fields_from(s, c, 0, Seq::empty(), Seq::empty())
}

/// `str::split(c)`, collected (see `split_fields`).
pub fn split_all(s: &str, c: char) -> (r: Vec<String>)
    ensures
        strings_view(r@) == split_fields(s@, c),
{
    let v = chars_of(s);
    let mut done: Vec<String> = Vec::new();
    let mut current: Vec<char> = Vec::new();
    let mut i: usize = 0;
    assert(strings_view(done@) =~= Seq::<Seq<char>>::empty());
    while i < v.len()
        invariant
            i <= v.len(),
            v@ == s@,
            fields_from(v@, c, i as int, strings_view(done@), current@) == split_fields(s@, c),
        decreases v.len() - i,
    {
        if v[i] == c {
            let piece = string_of(&current);
            let ghost before = done@;
            done.push(piece);
            assert(strings_view(done@) =~= strings_view(before).push(current@));
            current = Vec::new();
        } else {
            current.push(v[i]);
        }
        i = i + 1;
    }
    let piece = string_of(&current);
    let ghost before = done@;
    done.push(piece);
    assert(strings_view(done@) =~= strings_view(before).push(current@));
    done
}

} // verus!
