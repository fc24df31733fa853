//! Identifier synthesis: from a raw asset name to a unique identifier that
//! is safe to bind statically.

use vstd::prelude::*;
use convert_case::Case;
use convert_case::Casing;
use crate::text::str_eq;
use crate::text::decimal;
use crate::text::decimal_string;
use crate::text::is_digit;
use crate::text::digit;
use crate::text::lemma_decimal_digits;
use crate::text::lemma_decimal_injective;

verus! {

/// An ASCII letter.
pub open spec fn is_letter(c: char) -> bool {
    ('a' <= c && c <= 'z') || ('A' <= c && c <= 'Z')
}

/// A character that may open an identifier.
pub open spec fn is_ident_start(c: char) -> bool {
    is_letter(c) || c == '_'
}

/// A character that may stand anywhere in an identifier.
pub open spec fn is_ident_char(c: char) -> bool {
    is_letter(c) || is_digit(c) || c == '_'
}

/// Executable form of [`is_ident_start`].
pub fn ident_start(c: char) -> (r: bool)
    ensures
        r == is_ident_start(c),
{
    ('a' <= c && c <= 'z') || ('A' <= c && c <= 'Z') || c == '_'
}

/// Executable form of [`is_ident_char`].
pub fn ident_char(c: char) -> (r: bool)
    ensures
        r == is_ident_char(c),
{
    ident_start(c) || digit(c)
}

/// The token put in front of a name that cannot open an identifier, and
/// behind one that is reserved or ends in a digit.
pub open spec fn marker() -> Seq<char> {
    "Icon"@
}

/// Keywords of the language, the lone underscore, and type names that
/// generated code must not shadow.
pub open spec fn is_reserved(s: Seq<char>) -> bool {
    ||| s == "_"@
    ||| s == "as"@
    ||| s == "async"@
    ||| s == "await"@
    ||| s == "break"@
    ||| s == "const"@
    ||| s == "continue"@
    ||| s == "crate"@
    ||| s == "dyn"@
    ||| s == "else"@
    ||| s == "enum"@
    ||| s == "false"@
    ||| s == "fn"@
    ||| s == "for"@
    ||| s == "if"@
    ||| s == "impl"@
    ||| s == "in"@
    ||| s == "let"@
    ||| s == "loop"@
    ||| s == "match"@
    ||| s == "mod"@
    ||| s == "move"@
    ||| s == "mut"@
    ||| s == "pub"@
    ||| s == "ref"@
    ||| s == "return"@
    ||| s == "self"@
    ||| s == "Self"@
    ||| s == "static"@
    ||| s == "struct"@
    ||| s == "super"@
    ||| s == "trait"@
    ||| s == "true"@
    ||| s == "type"@
    ||| s == "unsafe"@
    ||| s == "use"@
    ||| s == "where"@
    ||| s == "while"@
    ||| s == "Box"@
    ||| s == "Err"@
    ||| s == "None"@
    ||| s == "Ok"@
    ||| s == "Option"@
    ||| s == "Result"@
    ||| s == "Some"@
    ||| s == "String"@
    ||| s == "Vec"@
    ||| s == "abstract"@
    ||| s == "become"@
    ||| s == "do"@
    ||| s == "extern"@
    ||| s == "final"@
    ||| s == "gen"@
    ||| s == "macro"@
    ||| s == "override"@
    ||| s == "priv"@
    ||| s == "try"@
    ||| s == "typeof"@
    ||| s == "union"@
    ||| s == "unsized"@
    ||| s == "virtual"@
    ||| s == "yield"@
}

/// Executable form of [`is_reserved`].
pub fn reserved(s: &str) -> (r: bool)
    ensures
        r == is_reserved(s@),
{
    str_eq(s, "_")
        || str_eq(s, "as")
        || str_eq(s, "async")
        || str_eq(s, "await")
        || str_eq(s, "break")
        || str_eq(s, "const")
        || str_eq(s, "continue")
        || str_eq(s, "crate")
        || str_eq(s, "dyn")
        || str_eq(s, "else")
        || str_eq(s, "enum")
        || str_eq(s, "false")
        || str_eq(s, "fn")
        || str_eq(s, "for")
        || str_eq(s, "if")
        || str_eq(s, "impl")
        || str_eq(s, "in")
        || str_eq(s, "let")
        || str_eq(s, "loop")
        || str_eq(s, "match")
        || str_eq(s, "mod")
        || str_eq(s, "move")
        || str_eq(s, "mut")
        || str_eq(s, "pub")
        || str_eq(s, "ref")
        || str_eq(s, "return")
        || str_eq(s, "self")
        || str_eq(s, "Self")
        || str_eq(s, "static")
        || str_eq(s, "struct")
        || str_eq(s, "super")
        || str_eq(s, "trait")
        || str_eq(s, "true")
        || str_eq(s, "type")
        || str_eq(s, "unsafe")
        || str_eq(s, "use")
        || str_eq(s, "where")
        || str_eq(s, "while")
        || str_eq(s, "Box")
        || str_eq(s, "Err")
        || str_eq(s, "None")
        || str_eq(s, "Ok")
        || str_eq(s, "Option")
        || str_eq(s, "Result")
        || str_eq(s, "Some")
        || str_eq(s, "String")
        || str_eq(s, "Vec")
        || str_eq(s, "abstract")
        || str_eq(s, "become")
        || str_eq(s, "do")
        || str_eq(s, "extern")
        || str_eq(s, "final")
        || str_eq(s, "gen")
        || str_eq(s, "macro")
        || str_eq(s, "override")
        || str_eq(s, "priv")
        || str_eq(s, "try")
        || str_eq(s, "typeof")
        || str_eq(s, "union")
        || str_eq(s, "unsized")
        || str_eq(s, "virtual")
        || str_eq(s, "yield")
}

/// Every reserved word but the lone underscore is made of letters only, and
/// none ends in the marker token.
pub proof fn lemma_reserved_shape(s: Seq<char>)
    requires
        is_reserved(s),
    ensures
        s.len() > 0,
        s == seq!['_'] || forall|i: int| 0 <= i < s.len() ==> is_letter(#[trigger] s[i]),
        !ends_with_marker(s),
{
    reveal_strlit("_");
    if s == "_"@ {
        assert(s =~= seq!['_']);
    }
    reveal_strlit("as");
    reveal_strlit("async");
    reveal_strlit("await");
    reveal_strlit("break");
    reveal_strlit("const");
    reveal_strlit("continue");
    reveal_strlit("crate");
    reveal_strlit("dyn");
    reveal_strlit("else");
    reveal_strlit("enum");
    reveal_strlit("false");
    reveal_strlit("fn");
    reveal_strlit("for");
    reveal_strlit("if");
    reveal_strlit("impl");
    reveal_strlit("in");
    reveal_strlit("let");
    reveal_strlit("loop");
    reveal_strlit("match");
    reveal_strlit("mod");
    reveal_strlit("move");
    reveal_strlit("mut");
    reveal_strlit("pub");
    reveal_strlit("ref");
    reveal_strlit("return");
    reveal_strlit("self");
    reveal_strlit("Self");
    reveal_strlit("static");
    reveal_strlit("struct");
    reveal_strlit("super");
    reveal_strlit("trait");
    reveal_strlit("true");
    reveal_strlit("type");
    reveal_strlit("unsafe");
    reveal_strlit("use");
    reveal_strlit("where");
    reveal_strlit("while");
    reveal_strlit("Box");
    reveal_strlit("Err");
    reveal_strlit("None");
    reveal_strlit("Ok");
    reveal_strlit("Option");
    reveal_strlit("Result");
    reveal_strlit("Some");
    reveal_strlit("String");
    reveal_strlit("Vec");
    reveal_strlit("abstract");
    reveal_strlit("become");
    reveal_strlit("do");
    reveal_strlit("extern");
    reveal_strlit("final");
    reveal_strlit("gen");
    reveal_strlit("macro");
    reveal_strlit("override");
    reveal_strlit("priv");
    reveal_strlit("try");
    reveal_strlit("typeof");
    reveal_strlit("union");
    reveal_strlit("unsized");
    reveal_strlit("virtual");
    reveal_strlit("yield");
    reveal_strlit("Icon");
    if s.len() >= 4 {
        assert(s.subrange(s.len() - 4, s.len() as int)[2] == s[s.len() - 2]);
        assert(s.subrange(s.len() - 4, s.len() as int)[0] == s[s.len() - 4]);
    }
}

/// Whether `s` ends in the marker token.
pub open spec fn ends_with_marker(s: Seq<char>) -> bool {
    s.len() >= 4 && s.subrange(s.len() - 4, s.len() as int) == marker()
}

/// What the outside case conversion makes of a raw name: its words, split at
/// hyphens, spaces, underscores and changes of case, each capitalised and all
/// joined without a separator.
pub uninterp spec fn pascal_case(raw: Seq<char>) -> Seq<char>;

/// Calls `convert_case::Casing::to_case` with `Case::Pascal`. The result is
/// a function of the characters of `raw` alone; the contract gives it a name
/// and claims nothing else about it.
#[verifier::external_body]
fn to_pascal(raw: &str) -> (r: String)
    ensures
        r@ == pascal_case(raw@),
{
    raw.to_case(Case::Pascal)
}

/// A name that cannot open an identifier gets the marker in front.
pub open spec fn with_prefix(s: Seq<char>) -> Seq<char> {
    if s.len() > 0 && is_ident_start(s[0]) {
        s
    } else {
        marker() + s
    }
}

/// A reserved name gets the marker behind.
pub open spec fn with_reserved_suffix(s: Seq<char>) -> Seq<char> {
    if is_reserved(s) {
        s + marker()
    } else {
        s
    }
}

/// Every character that cannot stand in an identifier becomes an underscore.
pub open spec fn sanitized(s: Seq<char>) -> Seq<char> {
    Seq::new(
        s.len(),
        |i: int|
            if is_ident_char(s[i]) {
                s[i]
            } else {
                '_'
            },
    )
}

/// A name that ends in a digit gets the marker behind, so that a counter can
/// follow it without being read as part of the name.
pub open spec fn with_digit_suffix(s: Seq<char>) -> Seq<char> {
    if s.len() > 0 && is_digit(s.last()) {
        s + marker()
    } else {
        s
    }
}

/// The identifier that a capitalised name stands for before uniqueness is
/// looked at.
pub open spec fn candidate(pascal: Seq<char>) -> Seq<char> {
    with_digit_suffix(sanitized(with_reserved_suffix(with_prefix(pascal))))
}

/// The grammar of an identifier: it opens with a letter or an underscore,
/// holds letters, digits and underscores only, and is not reserved.
pub open spec fn well_formed_ident(s: Seq<char>) -> bool {
    &&& s.len() > 0
    &&& is_ident_start(s[0])
    &&& forall|i: int| 0 <= i < s.len() ==> is_ident_char(#[trigger] s[i])
    &&& !is_reserved(s)
}

/// `base` followed by the numeral of `k`.
pub open spec fn numbered(base: Seq<char>, k: nat) -> Seq<char> {
    base + decimal(k)
}

/// `k` is the least counter, from 2 on, whose numbered name is not in `used`.
pub open spec fn is_first_free(base: Seq<char>, used: Set<Seq<char>>, k: nat) -> bool {
    &&& k >= 2
    &&& !used.contains(numbered(base, k))
    &&& forall|j: nat| 2 <= j < k ==> used.contains(#[trigger] numbered(base, j))
}

/// `base` itself where it is free, else `base` with the least free counter.
pub open spec fn fresh(base: Seq<char>, used: Set<Seq<char>>) -> Seq<char> {
    if !used.contains(base) {
        base
    } else {
        numbered(base, choose|k: nat| is_first_free(base, used, k))
    }
}

/// The identifier given to `raw` when the identifiers in `used` are taken.
pub open spec fn synthesized(raw: Seq<char>, used: Set<Seq<char>>) -> Seq<char> {
    fresh(candidate(pascal_case(raw)), used)
}

/// Whatever the capitalised name is, its candidate meets the grammar.
pub proof fn lemma_candidate_well_formed(pascal: Seq<char>)
    ensures
        well_formed_ident(candidate(pascal)),
        candidate(pascal).len() > 0,
        !is_digit(candidate(pascal).last()),
{
    reveal_strlit("Icon");
    let a = with_prefix(pascal);
    let b = with_reserved_suffix(a);
    let c = sanitized(b);
    let d = with_digit_suffix(c);
    assert(a.len() > 0 && is_ident_start(a[0]));
    assert(b.len() > 0 && b[0] == a[0]);
    assert(c[0] == b[0]);
    if is_reserved(a) {
        lemma_reserved_shape(a);
        assert(b.subrange(b.len() - 4, b.len() as int) =~= marker());
        assert forall|i: int| 0 <= i < b.len() implies is_ident_char(#[trigger] b[i]) by {
            if i < a.len() {
                assert(b[i] == a[i]);
            } else {
                assert(b[i] == marker()[i - a.len()]);
            }
        }
        assert(c =~= b);
    }
    if is_reserved(c) {
        lemma_reserved_shape(c);
        if c == seq!['_'] {
            assert(c.len() == 1);
            assert(b =~= a);
            assert(is_ident_char(a[0]));
            assert(a =~= seq!['_']);
            reveal_strlit("_");
            assert(a =~= "_"@);
        } else {
            assert forall|i: int| 0 <= i < b.len() implies is_ident_char(#[trigger] b[i]) by {
                assert(is_letter(c[i]));
            }
            assert(c =~= b);
            if is_reserved(a) {
                lemma_reserved_shape(b);
            }
        }
        assert(false);
    }
    if d != c {
        assert(d.subrange(d.len() - 4, d.len() as int) =~= marker());
        if is_reserved(d) {
            lemma_reserved_shape(d);
        }
        assert(d.last() == marker()[3]);
    }
    assert forall|i: int| 0 <= i < d.len() implies is_ident_char(#[trigger] d[i]) by {
        if i < c.len() {
            assert(d[i] == c[i]);
        } else {
            assert(d[i] == marker()[i - c.len()]);
        }
    }
}

/// A well-formed name stays well formed when a counter follows it.
pub proof fn lemma_numbered_well_formed(base: Seq<char>, k: nat)
    requires
        well_formed_ident(base),
    ensures
        well_formed_ident(numbered(base, k)),
{
    lemma_decimal_digits(k);
    let r = numbered(base, k);
    assert(r[0] == base[0]);
    assert forall|i: int| 0 <= i < r.len() implies is_ident_char(#[trigger] r[i]) by {
        if i < base.len() {
            assert(r[i] == base[i]);
        } else {
            assert(r[i] == decimal(k)[i - base.len()]);
        }
    }
    if is_reserved(r) {
        lemma_reserved_shape(r);
        assert(r.last() == decimal(k).last());
        assert(is_letter(r[r.len() - 1]));
    }
}

/// Different counters give different numbered names.
pub proof fn lemma_numbered_injective(base: Seq<char>, j: nat, k: nat)
    requires
        numbered(base, j) == numbered(base, k),
    ensures
        j == k,
{
    let n = base.len() as int;
    assert(numbered(base, j).subrange(n, numbered(base, j).len() as int) =~= decimal(j));
    assert(numbered(base, k).subrange(n, numbered(base, k).len() as int) =~= decimal(k));
    lemma_decimal_injective(j, k);
}

/// While every counter from 2 up to `k` is taken, `used` holds at least
/// `k - 2` names.
pub proof fn lemma_taken_bound(base: Seq<char>, used: Set<Seq<char>>, k: nat)
    requires
        used.finite(),
        k >= 2,
        forall|j: nat| 2 <= j < k ==> used.contains(#[trigger] numbered(base, j)),
    ensures
        k - 2 <= used.len(),
    decreases k,
{
    if k > 2 {
        let x = numbered(base, (k - 1) as nat);
        let rest = used.remove(x);
        assert forall|j: nat| 2 <= j < (k - 1) as nat implies rest.contains(
            #[trigger] numbered(base, j),
        ) by {
            if numbered(base, j) == x {
                lemma_numbered_injective(base, j, (k - 1) as nat);
            }
        }
        lemma_taken_bound(base, rest, (k - 1) as nat);
    }
}

/// In a finite set some counter is free, so [`fresh`] names something that
/// is not in the set; it is well formed where `base` is.
pub proof fn lemma_fresh_is_free(base: Seq<char>, used: Set<Seq<char>>)
    requires
        used.finite(),
    ensures
        !used.contains(fresh(base, used)),
        well_formed_ident(base) ==> well_formed_ident(fresh(base, used)),
{
    if used.contains(base) {
        lemma_free_exists(base, used, 2);
        let k = choose|k: nat| is_first_free(base, used, k);
        if well_formed_ident(base) {
            lemma_numbered_well_formed(base, k);
        }
    }
}

proof fn lemma_free_exists(base: Seq<char>, used: Set<Seq<char>>, k: nat)
    requires
        used.finite(),
        k >= 2,
        forall|j: nat| 2 <= j < k ==> used.contains(#[trigger] numbered(base, j)),
    ensures
        exists|f: nat| is_first_free(base, used, f),
    decreases used.len() + 2 - k,
{
    lemma_taken_bound(base, used, k);
    if used.contains(numbered(base, k)) {
        lemma_taken_bound(base, used, k + 1);
        lemma_free_exists(base, used, k + 1);
    } else {
        assert(is_first_free(base, used, k));
    }
}

/// The identifiers given out so far in one generation run.
pub struct IdentSet {
    items: Vec<String>,
}

impl View for IdentSet {
    type V = Set<Seq<char>>;

    closed spec fn view(&self) -> Set<Seq<char>> {
        self.items@.map_values(|s: String| s@).to_set()
    }
}

impl IdentSet {
    /// The empty set.
    pub fn new() -> (r: IdentSet)
        ensures
            r@ == Set::<Seq<char>>::empty(),
    {
        let r = IdentSet { items: Vec::new() };
        assert(r@ =~= Set::<Seq<char>>::empty());
        r
    }

    /// The set is finite.
    pub proof fn lemma_finite(&self)
        ensures
            self@.finite(),
    {
        vstd::seq_lib::seq_to_set_is_finite(self.items@.map_values(|s: String| s@));
    }

    /// Whether `s` was given out.
    pub fn contains(&self, s: &str) -> (r: bool)
        ensures
            r == self@.contains(s@),
    {
        let ghost names = self.items@.map_values(|s: String| s@);
        let mut i: usize = 0;
        while i < self.items.len()
            invariant
                i <= self.items.len(),
                names == self.items@.map_values(|s: String| s@),
                forall|j: int| 0 <= j < i ==> names[j] != s@,
            decreases self.items.len() - i,
        {
            if str_eq(self.items[i].as_str(), s) {
                assert(names[i as int] == s@);
                assert(names.contains(s@));
                return true;
            }
            i = i + 1;
        }
        assert(!names.contains(s@));
        false
    }

    /// Records `s` as given out.
    pub fn insert(&mut self, s: String)
        ensures
            final(self)@ == old(self)@.insert(s@),
    {
        let ghost before = self.items@.map_values(|s: String| s@);
        self.items.push(s);
        proof {
            let after = self.items@.map_values(|s: String| s@);
            assert(after =~= before.push(s@));
            before.lemma_push_to_set_commute(s@);
        }
    }
}

/// Puts the marker in front of a name that cannot open an identifier.
fn add_prefix(s: String) -> (r: String)
    ensures
        r@ == with_prefix(s@),
{
    let n = s.as_str().unicode_len();
    if n > 0 && ident_start(s.as_str().get_char(0)) {
        s
    } else {
        let mut r = "Icon".to_owned();
        r.append(s.as_str());
        r
    }
}

/// Puts the marker behind a reserved name.
fn add_reserved_suffix(s: String) -> (r: String)
    ensures
        r@ == with_reserved_suffix(s@),
{
    if reserved(s.as_str()) {
        s.concat("Icon")
    } else {
        s
    }
}

/// Replaces what cannot stand in an identifier by underscores.
fn sanitize(s: &str) -> (r: String)
    ensures
        r@ == sanitized(s@),
{
    let n = s.unicode_len();
    let mut r = String::new();
    let mut i: usize = 0;
    while i < n
        invariant
            n == s@.len(),
            i <= n,
            r@ == sanitized(s@).subrange(0, i as int),
        decreases n - i,
    {
        let c = s.get_char(i);
        let ghost before = r@;
        if ident_char(c) {
            r.append(s.substring_char(i, i + 1));
        } else {
            proof {
                reveal_strlit("_");
            }
            r.append("_");
        }
        proof {
            assert(r@ =~= before.push(sanitized(s@)[i as int]));
            assert(r@ =~= sanitized(s@).subrange(0, i + 1));
        }
        i = i + 1;
    }
    assert(r@ =~= sanitized(s@));
    r
}

/// Puts the marker behind a name that ends in a digit.
fn add_digit_suffix(s: String) -> (r: String)
    ensures
        r@ == with_digit_suffix(s@),
{
    let n = s.as_str().unicode_len();
    if n > 0 && digit(s.as_str().get_char(n - 1)) {
        s.concat("Icon")
    } else {
        s
    }
}

/// The candidate identifier of a capitalised name.
pub fn make_candidate(pascal: String) -> (r: String)
    ensures
        r@ == candidate(pascal@),
        well_formed_ident(r@),
{
    proof {
        lemma_candidate_well_formed(pascal@);
    }
    let a = add_prefix(pascal);
    let b = add_reserved_suffix(a);
    let c = sanitize(b.as_str());
    add_digit_suffix(c)
}

/// Makes `base` unique against `used` and records the result: `base` itself
/// where it is free, else `base` with the least free counter from 2 on.
pub fn make_unique(base: String, used: &mut IdentSet) -> (r: String)
    ensures
        r@ == fresh(base@, old(used)@),
        !old(used)@.contains(r@),
        final(used)@ == old(used)@.insert(r@),
        well_formed_ident(base@) ==> well_formed_ident(r@),
{
    proof {
        used.lemma_finite();
        lemma_fresh_is_free(base@, used@);
    }
    if !used.contains(base.as_str()) {
        let r = base.clone();
        used.insert(base);
        return r;
    }
    let ghost taken = used@;
    let ghost names = used.items@.map_values(|s: String| s@);
    proof {
        names.lemma_cardinality_of_set();
        lemma_taken_bound(base@, taken, 2);
    }
    let limit = used.items.len();
    let mut k: u128 = 2;
    let mut name = base.clone();
    name.append(decimal_string(k).as_str());
    while used.contains(name.as_str())
        invariant
            *used == *old(used),
            taken == used@,
            taken.finite(),
            taken.len() <= limit,
            2 <= k,
            k - 2 <= taken.len(),
            name@ == numbered(base@, k as nat),
            forall|j: nat| 2 <= j < k ==> taken.contains(#[trigger] numbered(base@, j)),
        decreases limit + 2 - k,
    {
        proof {
            lemma_taken_bound(base@, taken, (k + 1) as nat);
        }
        k = k + 1;
        name = base.clone();
        name.append(decimal_string(k).as_str());
    }
    proof {
        assert(is_first_free(base@, taken, k as nat));
        let c = choose|c: nat| is_first_free(base@, taken, c);
        assert(is_first_free(base@, taken, c));
        if c < k {
            assert(taken.contains(numbered(base@, c)));
        }
        if k < c {
            assert(taken.contains(numbered(base@, k as nat)));
        }
        assert(c == k);
    }
    let r = name.clone();
    used.insert(name);
    r
}

/// The identifier for a name that is already capitalised: its candidate,
/// made unique against `used`, which then holds it too.
pub fn synthesize_from(pascal: String, used: &mut IdentSet) -> (r: String)
    ensures
        r@ == fresh(candidate(pascal@), old(used)@),
        well_formed_ident(r@),
        !old(used)@.contains(r@),
        final(used)@ == old(used)@.insert(r@),
{
    let base = make_candidate(pascal);
    make_unique(base, used)
}

/// The identifier for the raw name `raw`: the name is capitalised, made safe
/// for the grammar and made unique against `used`, which then holds it too.
pub fn synthesize(raw: &str, used: &mut IdentSet) -> (r: String)
    ensures
        r@ == synthesized(raw@, old(used)@),
        well_formed_ident(r@),
        !old(used)@.contains(r@),
        final(used)@ == old(used)@.insert(r@),
{
    let pascal = to_pascal(raw);
    synthesize_from(pascal, used)
}

} // verus!
