use vstd::prelude::*;

use crate::text::{decimal, lemma_decimal_digits, lemma_decimal_injective, push_decimal};

verus! {

/// A character allowed in a generated identifier.
pub open spec fn is_word_char(c: char) -> bool {
    ('a' <= c && c <= 'z') || ('A' <= c && c <= 'Z') || ('0' <= c && c <= '9') || c == '_'
}

/// The text with every character that is not a word character replaced by
/// an underscore: `include/header -> include_header`.
pub open spec fn identifier(s: Seq<char>) -> Seq<char> {
    s.map_values(|c: char| if is_word_char(c) { c } else { '_' })
}

/// An ASCII letter or digit.
pub open spec fn is_alnum_ascii(c: char) -> bool {
    ('a' <= c && c <= 'z') || ('A' <= c && c <= 'Z') || ('0' <= c && c <= '9')
}

/// How one character is written in an encoded name: a letter or digit as
/// itself, any other character as `_`, its decimal code point, `_`.
pub open spec fn code_of(c: char) -> Seq<char> {
    if is_alnum_ascii(c) {
        seq![c]
    } else {
        seq!['_'] + decimal(c as u32 as nat) + seq!['_']
    }
}

/// A one-to-one encoding of any text into identifier characters:
/// `include/header -> include_47_header`.
pub open spec fn encoded(s: Seq<char>) -> Seq<char>
    decreases s.len(),
{
    if s.len() == 0 {
        s
    } else {
        code_of(s[0]) + encoded(s.drop_first())
    }
}

proof fn lemma_encoded_push(s: Seq<char>, c: char)
    ensures
        encoded(s.push(c)) == encoded(s) + code_of(c),
    decreases s.len(),
{
    if s.len() == 0 {
        assert(s.push(c).drop_first() =~= s);
        assert(encoded(s) == s);
        assert(s.push(c)[0] == c);
        assert(encoded(s.push(c)) == code_of(c) + encoded(s));
        assert(code_of(c) + s =~= code_of(c));
        assert(encoded(s) + code_of(c) =~= code_of(c));
    } else {
        lemma_encoded_push(s.drop_first(), c);
        assert(s.push(c).drop_first() =~= s.drop_first().push(c));
        assert(s.push(c)[0] == s[0]);
        assert(code_of(s[0]) + (encoded(s.drop_first()) + code_of(c)) =~= code_of(s[0])
            + encoded(s.drop_first()) + code_of(c));
    }
}

/// When two codes start two equal texts, the codes are equal.
proof fn lemma_code_prefix(x: char, y: char, r1: Seq<char>, r2: Seq<char>)
    requires
        code_of(x) + r1 == code_of(y) + r2,
    ensures
        x == y,
        r1 == r2,
{
    let t = code_of(x) + r1;
    if is_alnum_ascii(x) != is_alnum_ascii(y) {
        assert(t[0] == code_of(x)[0]);
        assert(t[0] == (code_of(y) + r2)[0]);
        assert(false);
    } else if is_alnum_ascii(x) {
        assert(t[0] == x);
        assert((code_of(y) + r2)[0] == y);
    } else {
        let dx = decimal(x as u32 as nat);
        let dy = decimal(y as u32 as nat);
        lemma_decimal_digits(x as u32 as nat);
        lemma_decimal_digits(y as u32 as nat);
        assert(code_of(x) =~= seq!['_'] + dx + seq!['_']);
        assert(code_of(y) =~= seq!['_'] + dy + seq!['_']);
        if dx.len() < dy.len() {
            assert(t[1 + dx.len() as int] == '_');
            assert((code_of(y) + r2)[1 + dx.len() as int] == dy[dx.len() as int]);
            assert(false);
        } else if dy.len() < dx.len() {
            assert((code_of(y) + r2)[1 + dy.len() as int] == '_');
            assert(t[1 + dy.len() as int] == dx[dy.len() as int]);
            assert(false);
        }
        assert(dx =~= t.subrange(1, 1 + dx.len() as int));
        assert(dy =~= (code_of(y) + r2).subrange(1, 1 + dy.len() as int));
        lemma_decimal_injective(x as u32 as nat, y as u32 as nat);
    }
    assert(r1 =~= t.subrange(code_of(x).len() as int, t.len() as int));
    assert(r2 =~= (code_of(y) + r2).subrange(code_of(y).len() as int, t.len() as int));
}

/// Different texts have different encodings.
pub proof fn lemma_encoded_injective(a: Seq<char>, b: Seq<char>)
    requires
        encoded(a) == encoded(b),
    ensures
        a == b,
    decreases a.len(),
{
    if a.len() == 0 && b.len() > 0 {
        assert(encoded(b).len() > 0);
    } else if a.len() > 0 && b.len() == 0 {
        assert(encoded(a).len() > 0);
    } else if a.len() > 0 {
        lemma_code_prefix(a[0], b[0], encoded(a.drop_first()), encoded(b.drop_first()));
        lemma_encoded_injective(a.drop_first(), b.drop_first());
        assert(a =~= seq![a[0]] + a.drop_first());
        assert(b =~= seq![b[0]] + b.drop_first());
    } else {
        assert(a =~= b);
    }
}

/// An encoded name never holds a character outside `[A-Za-z0-9_]`.
pub proof fn lemma_encoded_word(s: Seq<char>)
    ensures
        forall|i: int| 0 <= i < encoded(s).len() ==> is_word_char(#[trigger] encoded(s)[i]),
    decreases s.len(),
{
    if s.len() > 0 {
        lemma_encoded_word(s.drop_first());
        lemma_decimal_digits(s[0] as u32 as nat);
        let c = code_of(s[0]);
        let r = encoded(s.drop_first());
        assert forall|i: int| 0 <= i < encoded(s).len() implies is_word_char(
            #[trigger] encoded(s)[i],
        ) by {
            if i < c.len() {
                assert(encoded(s)[i] == c[i]);
                if !is_alnum_ascii(s[0]) && 0 < i < c.len() - 1 {
                    assert(c[i] == decimal(s[0] as u32 as nat)[i - 1]);
                }
            } else {
                assert(encoded(s)[i] == r[i - c.len()]);
            }
        }
    }
}

/// Encodes a name one to one into identifier characters.
pub fn encode(s: &str) -> (r: String)
    ensures
        r@ == encoded(s@),
{
    let chars = crate::text::chars_of(s);
    let mut r = String::new();
    let mut i: usize = 0;
    assert(chars@.subrange(0, 0) =~= Seq::<char>::empty());
    while i < chars.len()
        invariant
            i <= chars.len(),
            chars@ == s@,
            r@ == encoded(chars@.subrange(0, i as int)),
        decreases chars.len() - i,
    {
        let c = chars[i];
        if ('a' <= c && c <= 'z') || ('A' <= c && c <= 'Z') || ('0' <= c && c <= '9') {
            r.push(c);
        } else {
            r.push('_');
            push_decimal(&mut r, c as u32 as usize);
            r.push('_');
        }
        proof {
            lemma_encoded_push(chars@.subrange(0, i as int), c);
            assert(chars@.subrange(0, i + 1) =~= chars@.subrange(0, i as int).push(c));
            assert(r@ =~= encoded(chars@.subrange(0, i as int)) + code_of(c));
        }
        i = i + 1;
    }
    assert(chars@.subrange(0, i as int) =~= chars@);
    r
}

/// An identifier name generator.
#[derive(Debug)]
pub struct Name {
    pub base: String,
    pub next: usize,
}

impl Name {
    /// The identifier this generator renders: `include_header2`.
    pub open spec fn rendered(&self) -> Seq<char> {
        identifier(self.base@) + decimal(self.next as nat)
    }

    /// The name this generator renders in generated code: the encoded
    /// base, `_`, then the counter.
    pub open spec fn unique(&self) -> Seq<char> {
        encoded(self.base@) + seq!['_'] + decimal(self.next as nat)
    }

    /// Initialize a name generator with a base name. A unique identifier may
    /// then be generated with the `next` and `unique_name` functions.
    pub fn new(base: &str) -> (r: Name)
        ensures
            r.base@ == base@,
            r.next == 0,
    {
        Name { base: base.to_owned(), next: 0 }
    }

    /// Advances the generator to the next unique identifier. When passing
    /// a `Name` through recursive function calls, this can be called before
    /// the next recursion to increment the depth of the generated
    /// identifiers.
    pub fn next(&mut self) -> (r: &mut Self)
        requires
            old(self).next < usize::MAX,
        ensures
            r.base == old(self).base,
            r.next == old(self).next + 1,
            *final(self) == *final(r),
    {
        self.next = self.next + 1;
        self
    }

    /// Creates a valid identifier from the template's short name to be used
    /// in function or variable names generated from this template file:
    /// `include/header -> include_header`.
    pub fn id(&self) -> (r: String)
        ensures
            r@ == identifier(self.base@),
    {
        let chars = crate::text::chars_of(self.base.as_str());
        let mut r = String::new();
        let mut i: usize = 0;
        while i < chars.len()
            invariant
                i <= chars.len(),
                chars@ == self.base@,
                r@ == identifier(chars@.subrange(0, i as int)),
            decreases chars.len() - i,
        {
            let c = chars[i];
            if ('a' <= c && c <= 'z') || ('A' <= c && c <= 'Z') || ('0' <= c && c <= '9') || c
                == '_' {
                r.push(c);
            } else {
                r.push('_');
            }
            proof {
                assert(identifier(chars@.subrange(0, i + 1)) =~= identifier(
                    chars@.subrange(0, i as int),
                ).push(if is_word_char(c) { c } else { '_' }));
            }
            i = i + 1;
        }
        assert(chars@.subrange(0, chars.len() as int) =~= chars@);
        r
    }

    /// The generator's unique rendering for generated code, one to one in
    /// the base and the counter: `include/header -> include_47_header_2`.
    pub fn unique_name(&self) -> (r: String)
        ensures
            r@ == self.unique(),
    {
        let mut r = encode(self.base.as_str());
        r.push('_');
        push_decimal(&mut r, self.next);
        r
    }

    /// Creates an identifier to be used as a variable or function name:
    /// the identifier of the base followed by the counter.
    pub fn to_string(&self) -> (r: String)
        ensures
            r@ == self.rendered(),
    {
        let mut r = self.id();
        push_decimal(&mut r, self.next);
        r
    }
}

} // verus!
