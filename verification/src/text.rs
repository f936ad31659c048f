//! Character-level string helpers used when rendering menus.

use vstd::prelude::*;

verus! {

/// Appends one character to a string (`String::push`).
#[verifier::external_body]
pub(crate) fn push_char(s: &mut String, c: char)
    ensures
        final(s)@ == old(s)@.push(c),
{
    s.push(c);
}

/// `s` with every character `from` replaced by the sequence `to`.
pub open spec fn replace_char(s: Seq<char>, from: char, to: Seq<char>) -> Seq<char>
    decreases s.len(),
{
    if s.len() == 0 {
        seq![]
    } else {
        replace_char(s.drop_last(), from, to) + if s.last() == from {
            to
        } else {
            seq![s.last()]
        }
    }
}

/// Replacing characters in two strings one after the other is replacing
/// them in the two strings joined.
pub proof fn lemma_replace_char_concat(a: Seq<char>, b: Seq<char>, from: char, to: Seq<char>)
    ensures
        replace_char(a + b, from, to) == replace_char(a, from, to) + replace_char(b, from, to),
    decreases b.len(),
{
    if b.len() == 0 {
        assert(a + b =~= a);
    } else {
        lemma_replace_char_concat(a, b.drop_last(), from, to);
        assert((a + b).drop_last() =~= a + b.drop_last());
    }
}

/// Joining the pieces `g` makes of a non-empty list is joining those of all
/// but its last element, then the piece of the last.
pub proof fn lemma_flatten_map_last<A>(s: Seq<A>, g: spec_fn(A) -> Seq<char>)
    requires
        s.len() > 0,
    ensures
        s.map_values(g).flatten() == s.drop_last().map_values(g).flatten() + g(s.last()),
{
    assert(s =~= s.drop_last().push(s.last()));
    s.drop_last().lemma_push_map_commute(g, s.last());
    s.drop_last().map_values(g).lemma_flatten_push(g(s.last()));
}

/// Joining the pieces of an empty list gives nothing.
pub proof fn lemma_flatten_map_empty<A>(s: Seq<A>, g: spec_fn(A) -> Seq<char>)
    requires
        s.len() == 0,
    ensures
        s.map_values(g).flatten() == Seq::<char>::empty(),
{
    assert(s.map_values(g) =~= Seq::<Seq<char>>::empty());
}

/// Replaces each occurrence of the character `from` in `s` by `to`
/// (`str::replace` with a one-character pattern).
pub fn replace_char_with(s: &str, from: char, to: &str) -> (res: String)
    ensures
        res@ == replace_char(s@, from, to@),
{
    let n = s.unicode_len();
    let mut res = String::new();
    for i in 0..n
        invariant
            n == s@.len(),
            res@ == replace_char(s@.take(i as int), from, to@),
    {
        let c = s.get_char(i);
        if c == from {
            res.append(to);
        } else {
            push_char(&mut res, c);
        }
        assert(s@.take(i + 1).drop_last() =~= s@.take(i as int));
    }
    assert(s@.take(n as int) =~= s@);
    res
}


/// `a` has the two characters `" %"` at position `p`: the start of a
/// desktop-entry field code such as `%U` after the command.
pub open spec fn field_code_at(a: Seq<char>, p: int) -> bool {
    0 <= p && p + 1 < a.len() && a[p] == ' ' && a[p + 1] == '%'
}

/// `p` is the last position of `" %"` in `a`.
pub open spec fn last_field_code(a: Seq<char>, p: int) -> bool {
    field_code_at(a, p) && forall|q: int| p < q ==> !#[trigger] field_code_at(a, q)
}

/// The command of a desktop-entry `Exec` line: everything before the last
/// `" %"`, or the whole line when it holds none.
pub open spec fn command_of(a: Seq<char>) -> Seq<char> {
    if exists|p: int| last_field_code(a, p) {
        a.take(choose|p: int| last_field_code(a, p))
    } else {
        a
    }
}

/// The command is the `Exec` line itself when the line holds no `" %"`;
/// else the line is the command followed by a `" %"` that is the last one.
pub proof fn lemma_command_of(a: Seq<char>)
    ensures
        a.take(command_of(a).len() as int) == command_of(a),
        command_of(a).len() <= a.len(),
        (forall|p: int| !#[trigger] field_code_at(a, p)) ==> command_of(a) == a,
        command_of(a).len() < a.len() ==> last_field_code(a, command_of(a).len() as int),
        (exists|p: int| field_code_at(a, p)) ==> command_of(a).len() < a.len(),
{
    if exists|p: int| last_field_code(a, p) {
        let p = choose|p: int| last_field_code(a, p);
        assert(a.take(p).len() == p);
        assert(a.take(p).take(p) =~= a.take(p));
    } else {
        assert(a.take(a.len() as int) =~= a);
        if exists|p: int| field_code_at(a, p) {
            let p = choose|p: int| field_code_at(a, p);
            lemma_last_field_code_exists(a, p, a.len() as int);
        }
    }
}

/// A string with a `" %"` has a last one.
proof fn lemma_last_field_code_exists(a: Seq<char>, p: int, bound: int)
    requires
        field_code_at(a, p),
        p <= bound,
        forall|q: int| bound < q ==> !#[trigger] field_code_at(a, q),
    ensures
        exists|q: int| last_field_code(a, q),
    decreases bound - p,
{
    if last_field_code(a, p) {
    } else {
        let q = choose|q: int| p < q && #[trigger] field_code_at(a, q);
        assert(q <= bound);
        lemma_last_field_code_exists(a, q, bound);
    }
}

/// Cuts an `Exec` line at its last `" %"` (as `rfind` and `split_off` do).
pub fn command_of_action(a: &str) -> (res: String)
    ensures
        res@ == command_of(a@),
{
    let n = a.unicode_len();
    let mut k: usize = n;
    while k > 0
        invariant
            k <= n,
            n == a@.len(),
            forall|q: int| k <= q ==> !#[trigger] field_code_at(a@, q),
        decreases k,
    {
        let p = k - 1;
        if p + 1 < n && a.get_char(p) == ' ' && a.get_char(p + 1) == '%' {
            assert(last_field_code(a@, p as int));
            let ghost chosen = choose|q: int| last_field_code(a@, q);
            assert(chosen == p as int) by {
                if chosen < p {
                    assert(field_code_at(a@, p as int));
                } else if chosen > p {
                    assert(field_code_at(a@, chosen));
                }
            }
            return String::from_str(a.substring_char(0, p));
        }
        assert(!field_code_at(a@, p as int));
        k = p;
    }
    assert(!exists|p: int| last_field_code(a@, p));
    String::from_str(a)
}


/// Whether two strings hold the same characters.
pub fn str_eq(a: &str, b: &str) -> (res: bool)
    ensures
        res == (a@ == b@),
{
    let n = a.unicode_len();
    let m = b.unicode_len();
    if n != m {
        return false;
    }
    for i in 0..n
        invariant
            n == a@.len(),
            m == b@.len(),
            n == m,
            forall|j: int| 0 <= j < i ==> a@[j] == b@[j],
    {
        if a.get_char(i) != b.get_char(i) {
            return false;
        }
    }
    assert(a@ =~= b@);
    true
}

/// What `str::to_lowercase` makes of a sequence of characters.
pub uninterp spec fn lowercase(s: Seq<char>) -> Seq<char>;

/// `str::to_lowercase`: the string with every character in lower case, by
/// Unicode's rules; its result depends on the characters alone, and is
/// named here, not spelled out.
#[verifier::external_body]
pub(crate) fn to_lowercase(s: &str) -> (res: String)
    ensures
        res@ == lowercase(s@),
{
    s.to_lowercase()
}

} // verus!
