//! Game carts on removable media: reading a cart's `.kzi` metadata and
//! ordering the carts for the browser.
use vstd::prelude::*;

use crate::text::{
    after_prefix, chars_of, copy_string, lines, push_all, split_lines, string_from_chars,
    strip_prefix_chars, trim, trim_chars, views,
};

verus! {

broadcast use vstd::seq_lib::group_to_multiset_ensures;

/// The value of the first line of `ls` that starts with `prefix`: what
/// follows the prefix.
pub open spec fn first_value(ls: Seq<Seq<char>>, prefix: Seq<char>) -> Option<Seq<char>>
    decreases ls.len(),
{
    if ls.len() == 0 {
        None
    } else {
        match after_prefix(ls[0], prefix) {
            Some(v) => Some(v),
            None => first_value(ls.drop_first(), prefix),
        }
    }
}

/// The value of `key` in cart metadata `content`: what follows `key=` on the
/// first line that starts so, trimmed; empty when no line does.
pub open spec fn kzi_value_spec(content: Seq<char>, key: Seq<char>) -> Seq<char> {
    match first_value(lines(content), key + seq!['=']) {
        Some(v) => trim(v),
        None => Seq::empty(),
    }
}

/// The value of `key` in the lines `ls` of cart metadata.
fn kzi_value_in_lines(ls: &Vec<Vec<char>>, key: &str) -> (res: Vec<char>)
    ensures
        match first_value(views(ls@), key@ + seq!['=']) {
            Some(v) => res@ == trim(v),
            None => res@ == Seq::<char>::empty(),
        },
{
    let mut prefix = chars_of(key);
    prefix.push('=');
    let ghost all = views(ls@);
    assert(all.skip(0) =~= all);
    let mut i: usize = 0;
    while i < ls.len()
        invariant
            i <= ls.len(),
            all == views(ls@),
            prefix@ == key@ + seq!['='],
            first_value(all, prefix@) == first_value(all.skip(i as int), prefix@),
        decreases ls.len() - i,
    {
        assert(all.skip(i as int)[0] == ls@[i as int]@);
        assert(all.skip(i as int).drop_first() =~= all.skip(i + 1));
        match strip_prefix_chars(&ls[i], &prefix) {
            Some(v) => {
                return trim_chars(&v);
            },
            None => {},
        }
        i = i + 1;
    }
    assert(all.skip(i as int) =~= Seq::<Seq<char>>::empty());
    Vec::new()
}

/// The value of `key` in cart metadata `content`.
pub fn kzi_value(content: &str, key: &str) -> (res: String)
    ensures
        res@ == kzi_value_spec(content@, key@),
{
    let ls = split_lines(&chars_of(content));
    let v = kzi_value_in_lines(&ls, key);
    string_from_chars(v.as_slice())
}

/// A recognised cart: its metadata and `origin`, the place of its directory
/// in the listing it was read from.
pub struct Cart {
    pub name: String,
    pub system: String,
    pub runtime: String,
    pub source: String,
    pub cover: String,
    pub icon: String,
    pub origin: usize,
}

/// A cart, as mathematical values.
pub struct CartView {
    pub name: Seq<char>,
    pub system: Seq<char>,
    pub runtime: Seq<char>,
    pub source: Seq<char>,
    pub cover: Seq<char>,
    pub icon: Seq<char>,
    pub origin: nat,
}

impl View for Cart {
    type V = CartView;

    open spec fn view(&self) -> CartView {
        CartView {
            name: self.name@,
            system: self.system@,
            runtime: self.runtime@,
            source: self.source@,
            cover: self.cover@,
            icon: self.icon@,
            origin: self.origin as nat,
        }
    }
}

/// The cart described by metadata `content` from the directory at `origin`:
/// its `Name`, `Platform`, `Runtime`, `SourceFile`, `Cover` and `Icon`
/// values; none when the name or the runtime is empty.
pub open spec fn cart_from_kzi_spec(content: Seq<char>, origin: nat) -> Option<CartView> {
    let name = kzi_value_spec(content, "Name"@);
    let runtime = kzi_value_spec(content, "Runtime"@);
    if name.len() == 0 || runtime.len() == 0 {
        None
    } else {
        Some(
            CartView {
                name,
                system: kzi_value_spec(content, "Platform"@),
                runtime,
                source: kzi_value_spec(content, "SourceFile"@),
                cover: kzi_value_spec(content, "Cover"@),
                icon: kzi_value_spec(content, "Icon"@),
                origin,
            },
        )
    }
}

/// Whether each field of cart `c` holds the value of its own key in `content`
/// (`Name`, `Platform`, `Runtime`, `SourceFile`, `Cover`, `Icon`), and its
/// origin is `origin`.
pub open spec fn cart_fields_match(c: CartView, content: Seq<char>, origin: nat) -> bool {
    &&& c.name == kzi_value_spec(content, "Name"@)
    &&& c.system == kzi_value_spec(content, "Platform"@)
    &&& c.runtime == kzi_value_spec(content, "Runtime"@)
    &&& c.source == kzi_value_spec(content, "SourceFile"@)
    &&& c.cover == kzi_value_spec(content, "Cover"@)
    &&& c.icon == kzi_value_spec(content, "Icon"@)
    &&& c.origin == origin
}

/// A cart is read exactly when its metadata names a game and a runtime, and
/// then each of its fields is the value of its own key: the system is the
/// `Platform` value, the runtime the `Runtime` value, and so on.
pub proof fn lemma_cart_from_kzi_fields(content: Seq<char>, origin: nat)
    ensures
        cart_from_kzi_spec(content, origin) is None <==> (kzi_value_spec(content, "Name"@).len()
            == 0 || kzi_value_spec(content, "Runtime"@).len() == 0),
        cart_from_kzi_spec(content, origin) matches Some(c) ==> cart_fields_match(
            c,
            content,
            origin,
        ),
{
}

/// The cart described by metadata `content` from the directory at `origin`,
/// if it names a game and its runtime.
pub fn cart_from_kzi(content: &str, origin: usize) -> (res: Option<Cart>)
    ensures
        match res {
            Some(c) => cart_from_kzi_spec(content@, origin as nat) == Some(c@),
            None => cart_from_kzi_spec(content@, origin as nat) is None,
        },
        res is None <==> (kzi_value_spec(content@, "Name"@).len() == 0 || kzi_value_spec(
            content@,
            "Runtime"@,
        ).len() == 0),
        res matches Some(c) ==> cart_fields_match(c@, content@, origin as nat),
{
    proof {
        lemma_cart_from_kzi_fields(content@, origin as nat);
    }
    let ls = split_lines(&chars_of(content));
    let ghost all = lines(content@);
    let name = kzi_value_in_lines(&ls, "Name");
    let runtime = kzi_value_in_lines(&ls, "Runtime");
    let system = kzi_value_in_lines(&ls, "Platform");
    let source = kzi_value_in_lines(&ls, "SourceFile");
    let cover = kzi_value_in_lines(&ls, "Cover");
    let icon = kzi_value_in_lines(&ls, "Icon");
    if name.len() == 0 || runtime.len() == 0 {
        return None;
    }
    Some(
        Cart {
            name: string_from_chars(name.as_slice()),
            system: string_from_chars(system.as_slice()),
            runtime: string_from_chars(runtime.as_slice()),
            source: string_from_chars(source.as_slice()),
            cover: string_from_chars(cover.as_slice()),
            icon: string_from_chars(icon.as_slice()),
            origin,
        },
    )
}

impl Cart {
    /// A copy of this cart.
    pub fn duplicate(&self) -> (c: Cart)
        ensures
            c@ == self@,
    {
        Cart {
            name: copy_string(&self.name),
            system: copy_string(&self.system),
            runtime: copy_string(&self.runtime),
            source: copy_string(&self.source),
            cover: copy_string(&self.cover),
            icon: copy_string(&self.icon),
            origin: self.origin,
        }
    }

    /// The file in the cart's directory to show as its artwork: the cover,
    /// when one is named and `cover_exists` says it is there, else the icon.
    pub fn artwork(&self, cover_exists: bool) -> (file: String)
        ensures
            file@ == (if self.cover@.len() > 0 && cover_exists {
                self.cover@
            } else {
                self.icon@
            }),
    {
        if self.cover.as_str().is_empty() || !cover_exists {
            copy_string(&self.icon)
        } else {
            copy_string(&self.cover)
        }
    }
}

// ---------------------------------------------------------------------------
// Ordering
// ---------------------------------------------------------------------------

/// Whether text `a` comes before text `b`: character by character, by code
/// point, a proper prefix first (the order of `str` and `String`).
pub open spec fn text_less(a: Seq<char>, b: Seq<char>) -> bool
    decreases a.len(),
{
    if a.len() == 0 {
        b.len() > 0
    } else if b.len() == 0 {
        false
    } else if a[0] != b[0] {
        (a[0] as int) < (b[0] as int)
    } else {
        text_less(a.drop_first(), b.drop_first())
    }
}

/// Whether cart `a` comes before cart `b`: by system, then by name.
pub open spec fn cart_less(a: CartView, b: CartView) -> bool {
    text_less(a.system, b.system) || (a.system == b.system && text_less(a.name, b.name))
}

/// Whether carts are in order: none comes before one listed earlier.
pub open spec fn carts_sorted(cs: Seq<CartView>) -> bool {
    forall|i: int, j: int| 0 <= i < j < cs.len() ==> !cart_less(#[trigger] cs[j], #[trigger] cs[i])
}

/// Whether two carts agree on system and name.
pub open spec fn same_key(a: CartView, b: CartView) -> bool {
    a.system == b.system && a.name == b.name
}

/// Whether `output` lists the carts of `input` rearranged by `perm`
/// (`output[k]` is `input[perm[k]]`, each input cart used once), with carts
/// that agree on system and name in their input order.
pub open spec fn stable_rearrangement(
    input: Seq<CartView>,
    output: Seq<CartView>,
    perm: Seq<int>,
) -> bool {
    &&& perm.len() == input.len()
    &&& output.len() == input.len()
    &&& forall|k: int|
        0 <= k < perm.len() ==> 0 <= #[trigger] perm[k] < input.len() && output[k] == input[perm[k]]
    &&& forall|a: int, b: int| 0 <= a < b < perm.len() ==> #[trigger] perm[a] != #[trigger] perm[b]
    &&& forall|a: int, b: int|
        0 <= a < b < output.len() && same_key(#[trigger] output[a], #[trigger] output[b]) ==> perm[a]
            < perm[b]
}

/// The views of a sequence of carts.
pub open spec fn cart_views(v: Seq<Cart>) -> Seq<CartView> {
    v.map_values(|c: Cart| c@)
}

/// Whether `a` comes before `b` as text.
pub fn text_less_exec(a: &Vec<char>, b: &Vec<char>) -> (res: bool)
    ensures
        res == text_less(a@, b@),
{
    let mut i: usize = 0;
    assert(a@.skip(0) =~= a@);
    assert(b@.skip(0) =~= b@);
    while i < a.len() && i < b.len() && a[i] == b[i]
        invariant
            i <= a.len(),
            i <= b.len(),
            text_less(a@, b@) == text_less(a@.skip(i as int), b@.skip(i as int)),
        decreases a.len() - i,
    {
        assert(a@.skip(i as int).drop_first() =~= a@.skip(i + 1));
        assert(b@.skip(i as int).drop_first() =~= b@.skip(i + 1));
        i = i + 1;
    }
    if i == a.len() {
        i < b.len()
    } else if i == b.len() {
        false
    } else {
        assert(a@.skip(i as int)[0] == a@[i as int]);
        assert(b@.skip(i as int)[0] == b@[i as int]);
        a[i] < b[i]
    }
}

/// Whether cart `a` comes before cart `b`.
fn cart_less_exec(a: &Cart, b: &Cart) -> (res: bool)
    ensures
        res == cart_less(a@, b@),
{
    let sa = chars_of(a.system.as_str());
    let sb = chars_of(b.system.as_str());
    if text_less_exec(&sa, &sb) {
        return true;
    }
    let same = crate::text::same_chars(&sa, &sb);
    if !same {
        return false;
    }
    text_less_exec(&chars_of(a.name.as_str()), &chars_of(b.name.as_str()))
}

proof fn lemma_text_less_irreflexive(a: Seq<char>)
    ensures
        !text_less(a, a),
    decreases a.len(),
{
    if a.len() > 0 {
        lemma_text_less_irreflexive(a.drop_first());
    }
}

proof fn lemma_text_less_asymmetric(a: Seq<char>, b: Seq<char>)
    ensures
        !(text_less(a, b) && text_less(b, a)),
    decreases a.len(),
{
    if a.len() > 0 && b.len() > 0 && a[0] == b[0] {
        lemma_text_less_asymmetric(a.drop_first(), b.drop_first());
    }
}

proof fn lemma_text_less_transitive(a: Seq<char>, b: Seq<char>, c: Seq<char>)
    requires
        text_less(a, b),
        text_less(b, c),
    ensures
        text_less(a, c),
    decreases a.len(),
{
    if a.len() > 0 && b.len() > 0 && c.len() > 0 && a[0] == b[0] && b[0] == c[0] {
        lemma_text_less_transitive(a.drop_first(), b.drop_first(), c.drop_first());
    }
}

proof fn lemma_text_less_total(a: Seq<char>, b: Seq<char>)
    ensures
        a == b || text_less(a, b) || text_less(b, a),
    decreases a.len(),
{
    if a.len() > 0 && b.len() > 0 && a[0] == b[0] {
        lemma_text_less_total(a.drop_first(), b.drop_first());
        if a.drop_first() == b.drop_first() {
            assert(a =~= seq![a[0]] + a.drop_first());
            assert(b =~= seq![b[0]] + b.drop_first());
        }
    } else if a.len() == 0 && b.len() == 0 {
        assert(a =~= b);
    }
}

proof fn lemma_cart_less_asymmetric(a: CartView, b: CartView)
    ensures
        !(cart_less(a, b) && cart_less(b, a)),
{
    lemma_text_less_asymmetric(a.system, b.system);
    lemma_text_less_asymmetric(a.name, b.name);
    lemma_text_less_irreflexive(a.system);
}

/// "Not after" is transitive for carts.
proof fn lemma_cart_not_after_transitive(a: CartView, b: CartView, c: CartView)
    requires
        !cart_less(b, a),
        !cart_less(c, b),
    ensures
        !cart_less(c, a),
{
    lemma_text_less_total(a.system, b.system);
    lemma_text_less_total(b.system, c.system);
    lemma_text_less_total(a.name, b.name);
    lemma_text_less_total(b.name, c.name);
    lemma_text_less_irreflexive(a.system);
    lemma_text_less_irreflexive(a.name);
    if cart_less(c, a) {
        if text_less(c.system, a.system) {
            if text_less(a.system, b.system) {
                lemma_text_less_transitive(c.system, a.system, b.system);
                lemma_text_less_asymmetric(b.system, c.system);
                if text_less(b.system, c.system) {
                } else {
                    lemma_text_less_irreflexive(b.system);
                }
            } else {
                lemma_text_less_asymmetric(b.system, c.system);
            }
        } else {
            if text_less(a.name, b.name) {
                lemma_text_less_transitive(c.name, a.name, b.name);
                lemma_text_less_asymmetric(b.name, c.name);
                lemma_text_less_irreflexive(b.name);
            }
            lemma_text_less_asymmetric(b.system, c.system);
            lemma_text_less_asymmetric(a.system, b.system);
        }
    }
}

/// The place where `x` goes among the sorted carts `out`: after every cart
/// that `x` does not come before.
fn insertion_point(out: &Vec<Cart>, x: &Cart) -> (j: usize)
    ensures
        j <= out.len(),
        forall|k: int| j <= k < out.len() ==> cart_less(x@, #[trigger] out@[k]@),
        j > 0 ==> !cart_less(x@, out@[j - 1]@),
{
    let mut j = out.len();
    while j > 0 && cart_less_exec(x, &out[j - 1])
        invariant
            j <= out.len(),
            forall|k: int| j <= k < out.len() ==> cart_less(x@, #[trigger] out@[k]@),
        decreases j,
    {
        j = j - 1;
    }
    j
}

/// Puts the carts in order by system, then by name; carts that agree on both
/// keep their order (a stable sort).
pub fn sort_carts(carts: &mut Vec<Cart>)
    ensures
        cart_views(final(carts)@).to_multiset() == cart_views(old(carts)@).to_multiset(),
        carts_sorted(cart_views(final(carts)@)),
        exists|perm: Seq<int>|
            stable_rearrangement(cart_views(old(carts)@), cart_views(final(carts)@), perm),
{
    let ghost input = cart_views(carts@);
    let mut out: Vec<Cart> = Vec::new();
    let ghost mut perm: Seq<int> = Seq::empty();
    let n = carts.len();
    let mut i: usize = 0;
    assert(input.take(0) =~= Seq::<CartView>::empty());
    while i < n
        invariant
            i <= n == carts.len(),
            input == cart_views(carts@),
            cart_views(out@).to_multiset() == input.take(i as int).to_multiset(),
            carts_sorted(cart_views(out@)),
            stable_rearrangement(input.take(i as int), cart_views(out@), perm),
        decreases n - i,
    {
        let x = carts[i].duplicate();
        let j = insertion_point(&out, &x);
        let ghost before = cart_views(out@);
        let ghost xv = x@;
        out.insert(j, x);
        let ghost after = cart_views(out@);
        assert(after =~= before.insert(j as int, xv));
        let ghost old_perm = perm;
        proof {
            perm = old_perm.insert(j as int, i as int);
            let inp = input.take(i + 1);
            assert(inp[i as int] == xv);
            assert forall|k: int| 0 <= k < perm.len() implies 0 <= #[trigger] perm[k] < inp.len()
                && after[k] == inp[perm[k]] by {
                if k < j {
                    assert(perm[k] == old_perm[k] && after[k] == before[k]);
                    assert(inp[old_perm[k]] == input.take(i as int)[old_perm[k]]);
                } else if k > j {
                    assert(perm[k] == old_perm[k - 1] && after[k] == before[k - 1]);
                    assert(inp[old_perm[k - 1]] == input.take(i as int)[old_perm[k - 1]]);
                }
            }
            assert forall|a: int, b: int| 0 <= a < b < perm.len() implies #[trigger] perm[a]
                != #[trigger] perm[b] by {
                let a0 = if a < j { a } else { a - 1 };
                let b0 = if b < j { b } else { b - 1 };
                if a != j && b != j {
                    assert(perm[a] == old_perm[a0] && perm[b] == old_perm[b0]);
                } else if a == j {
                    assert(perm[b] == old_perm[b0]);
                } else {
                    assert(perm[a] == old_perm[a0]);
                }
            }
            assert forall|a: int, b: int|
                0 <= a < b < after.len() && same_key(#[trigger] after[a], #[trigger] after[b])
                    implies perm[a] < perm[b] by {
                let a0 = if a < j { a } else { a - 1 };
                let b0 = if b < j { b } else { b - 1 };
                if a != j && b != j {
                    assert(perm[a] == old_perm[a0] && perm[b] == old_perm[b0]);
                    assert(after[a] == before[a0] && after[b] == before[b0]);
                } else if b == j {
                    assert(perm[a] == old_perm[a0]);
                } else {
                    assert(after[b] == before[b0]);
                    assert(cart_less(xv, before[b0]));
                    lemma_text_less_irreflexive(xv.system);
                    lemma_text_less_irreflexive(xv.name);
                }
            }
            assert(after.remove(j as int) =~= before);
            assert(after[j as int] == xv);
            assert(after.to_multiset().remove(xv) =~= before.to_multiset());
            assert(after.to_multiset().count(xv) > 0) by {
                assert(after.contains(xv));
            }
            assert(after.to_multiset() =~= before.to_multiset().insert(xv));
            assert(input.take(i + 1) =~= input.take(i as int).push(xv));
            assert forall|a: int, b: int| 0 <= a < b < after.len() implies !cart_less(
                #[trigger] after[b],
                #[trigger] after[a],
            ) by {
                if b < j {
                    assert(after[a] == before[a] && after[b] == before[b]);
                } else if b == j {
                    assert(after[a] == before[a]);
                    if a < j - 1 {
                        assert(!cart_less(before[j - 1], before[a]));
                        lemma_cart_not_after_transitive(before[a], before[j - 1], xv);
                    }
                } else if a < j {
                    assert(after[a] == before[a] && after[b] == before[b - 1]);
                } else if a == j {
                    assert(after[b] == before[b - 1]);
                    assert(cart_less(xv, before[b - 1]));
                    lemma_cart_less_asymmetric(xv, before[b - 1]);
                } else {
                    assert(after[a] == before[a - 1] && after[b] == before[b - 1]);
                }
            }
        }
        i = i + 1;
    }
    assert(input.take(n as int) =~= input);
    assert(stable_rearrangement(input, cart_views(out@), perm));
    *carts = out;
}

} // verus!
