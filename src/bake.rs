//! Baking from a recipe and a pantry: how many cookies the pantry allows, and
//! what is left of it afterwards. Ingredient lists are name/amount pairs with
//! distinct names.
use vstd::prelude::*;
use base64::Engine;

verus! {

/// base64's decoding error, carried through as an opaque value.
#[verifier::external_type_specification]
#[verifier::external_body]
pub struct ExDecodeError(base64::DecodeError);

/// The bytes that a text decodes to in standard, padded base64; `None` where
/// it is not such a text.
pub uninterp spec fn base64_decoded_of(text: Seq<char>) -> Option<Seq<u8>>;

/// Relies on `base64::Engine::decode` of the `STANDARD` engine.
#[verifier::external_body]
fn base64_decode(text: &str) -> (r: Result<Vec<u8>, base64::DecodeError>)
    ensures
        match r {
            Ok(bytes) => base64_decoded_of(text@) == Some(bytes@),
            Err(_) => base64_decoded_of(text@) is None,
        },
{
    base64::engine::general_purpose::STANDARD.decode(text)
}

/// Why a recipe cookie could not be read.
#[derive(Clone, Copy, Debug, PartialEq, Eq, Structural)]
pub enum CookieError {
    /// The cookie's value is not base64.
    NotBase64,
}

/// The bytes that a recipe cookie's value carries.
pub fn decode_recipe_cookie(value: &str) -> (r: Result<Vec<u8>, CookieError>)
    ensures
        match r {
            Ok(bytes) => base64_decoded_of(value@) == Some(bytes@),
            Err(e) => e == CookieError::NotBase64 && base64_decoded_of(value@) is None,
        },
{
    match base64_decode(value) {
        Ok(bytes) => Ok(bytes),
        Err(_) => Err(CookieError::NotBase64),
    }
}

/// The names of an ingredient list, in order.
pub open spec fn names_of(list: Seq<(String, u64)>) -> Seq<Seq<char>> {
    list.map_values(|e: (String, u64)| e.0@)
}

/// No name appears twice in the list.
pub open spec fn distinct(list: Seq<(String, u64)>) -> bool {
    names_of(list).no_duplicates()
}

/// The list names the ingredient `name`.
pub open spec fn lists(list: Seq<(String, u64)>, name: Seq<char>) -> bool {
    names_of(list).contains(name)
}

/// The amount that the list gives for `name` (meaningful where it lists it).
pub open spec fn amount_in(list: Seq<(String, u64)>, name: Seq<char>) -> u64 {
    list[choose|i: int| 0 <= i < list.len() && list[i].0@ == name].1
}

/// How many cookies one recipe line allows: any number for an amount of
/// zero, none for an ingredient the pantry lacks, else the pantry's stock
/// divided by the amount.
pub open spec fn batches_for(line: (String, u64), pantry: Seq<(String, u64)>) -> u64 {
    if line.1 == 0 {
        u64::MAX
    } else if lists(pantry, line.0@) {
        (amount_in(pantry, line.0@) / line.1) as u64
    } else {
        0
    }
}

/// The number of cookies a pantry allows: the least over the recipe lines,
/// and zero for an empty recipe.
pub open spec fn batches(recipe: Seq<(String, u64)>, pantry: Seq<(String, u64)>) -> u64
    decreases recipe.len(),
{
    if recipe.len() == 0 {
        0
    } else if recipe.len() == 1 {
        batches_for(recipe[0], pantry)
    } else {
        let rest = batches(recipe.drop_last(), pantry);
        let last = batches_for(recipe.last(), pantry);
        if last < rest {
            last
        } else {
            rest
        }
    }
}

/// What is left of one pantry line after baking `cookies` cookies.
pub open spec fn left_after(
    recipe: Seq<(String, u64)>,
    cookies: u64,
    line: (String, u64),
) -> u64 {
    if lists(recipe, line.0@) {
        (line.1 - cookies * amount_in(recipe, line.0@)) as u64
    } else {
        line.1
    }
}

/// A recipe: each ingredient with the amount one cookie takes.
pub struct Recipe {
    pub recipe: Vec<(String, u32)>,
}

/// The ingredients of the classic cookie recipe.
pub struct Ingredients {
    pub flour: u64,
    pub sugar: u64,
    pub butter: u64,
    pub baking_powder: u64,
    pub chocolate_chips: u64,
}

/// A recipe (amount per cookie) and a pantry (amount in stock).
pub struct BakeInput {
    recipe: Vec<(String, u64)>,
    pantry: Vec<(String, u64)>,
}

/// The cookies baked and the pantry that is left.
pub struct BakeOutput {
    pub cookies: u64,
    pub pantry: Vec<(String, u64)>,
}

/// The position of `name` in `list`, if it is there.
fn position_of(list: &Vec<(String, u64)>, name: &String) -> (r: Option<usize>)
    ensures
        match r {
            Some(i) => i < list@.len() && list@[i as int].0@ == name@,
            None => !lists(list@, name@),
        },
{
    let mut i: usize = 0;
    while i < list.len()
        invariant
            i <= list.len(),
            forall|j: int| 0 <= j < i ==> list@[j].0@ != name@,
        decreases list.len() - i,
    {
        if list[i].0 == *name {
            return Some(i);
        }
        i = i + 1;
    }
    proof {
        if lists(list@, name@) {
            let j = choose|j: int| 0 <= j < names_of(list@).len() && names_of(list@)[j] == name@;
            assert(list@[j].0@ == name@);
        }
    }
    None
}

/// In a list with distinct names, the amount for a name is the one on its line.
proof fn lemma_amount_at(list: Seq<(String, u64)>, k: int)
    requires
        distinct(list),
        0 <= k < list.len(),
    ensures
        lists(list, list[k].0@),
        amount_in(list, list[k].0@) == list[k].1,
{
    let name = list[k].0@;
    assert(names_of(list)[k] == name);
    assert(0 <= k < list.len() && list[k].0@ == name);
    assert forall|j: int| 0 <= j < list.len() && #[trigger] list[j].0@ == name implies j == k by {
        assert(names_of(list)[j] == list[j].0@);
    }
}

/// The cookie count is at most what any single recipe line allows.
proof fn lemma_batches_at_most(recipe: Seq<(String, u64)>, pantry: Seq<(String, u64)>, i: int)
    requires
        0 <= i < recipe.len(),
    ensures
        batches(recipe, pantry) <= batches_for(recipe[i], pantry),
    decreases recipe.len(),
{
    if recipe.len() > 1 && i < recipe.len() - 1 {
        lemma_batches_at_most(recipe.drop_last(), pantry, i);
    }
}

impl BakeInput {
    /// Pairs a recipe with a pantry; `None` where either lists a name twice.
    pub fn new(recipe: Vec<(String, u64)>, pantry: Vec<(String, u64)>) -> (r: Option<BakeInput>)
        ensures
            match r {
                Some(b) => b.wf() && b.recipe() == recipe@ && b.pantry() == pantry@,
                None => !(distinct(recipe@) && distinct(pantry@)),
            },
    {
        if has_distinct_names(&recipe) && has_distinct_names(&pantry) {
            Some(BakeInput { recipe, pantry })
        } else {
            None
        }
    }

    /// The recipe lines.
    pub closed spec fn recipe(&self) -> Seq<(String, u64)> {
        self.recipe@
    }

    /// The pantry lines.
    pub closed spec fn pantry(&self) -> Seq<(String, u64)> {
        self.pantry@
    }

    /// The pantry lines, in order.
    pub fn pantry_lines(&self) -> (r: &Vec<(String, u64)>)
        ensures
            r@ == self.pantry(),
    {
        &self.pantry
    }

    /// Neither list names an ingredient twice.
    pub open spec fn wf(&self) -> bool {
        distinct(self.recipe()) && distinct(self.pantry())
    }

    /// The number of cookies that the pantry allows.
    fn find_amount_baked(&self) -> (r: u64)
        requires
            self.wf(),
        ensures
            r == batches(self.recipe(), self.pantry()),
    {
        let n = self.recipe.len();
        if n == 0 {
            return 0;
        }
        let mut least = self.line_batches(0);
        let mut i: usize = 1;
        assert(self.recipe@.subrange(0, 1).drop_last() =~= Seq::<(String, u64)>::empty());
        while i < n
            invariant
                self.wf(),
                n == self.recipe@.len(),
                1 <= i <= n,
                least == batches(self.recipe@.subrange(0, i as int), self.pantry@),
            decreases n - i,
        {
            let here = self.line_batches(i);
            let ghost done = self.recipe@.subrange(0, i + 1);
            assert(done.drop_last() =~= self.recipe@.subrange(0, i as int));
            assert(done.last() == self.recipe@[i as int]);
            if here < least {
                least = here;
            }
            i = i + 1;
        }
        assert(self.recipe@.subrange(0, n as int) =~= self.recipe@);
        least
    }

    /// How many cookies recipe line `i` allows.
    fn line_batches(&self, i: usize) -> (r: u64)
        requires
            self.wf(),
            i < self.recipe@.len(),
        ensures
            r == batches_for(self.recipe@[i as int], self.pantry@),
    {
        let amount = self.recipe[i].1;
        if amount == 0 {
            return u64::MAX;
        }
        match position_of(&self.pantry, &self.recipe[i].0) {
            Some(j) => {
                let stock = self.pantry[j].1;
                proof {
                    lemma_amount_at(self.pantry@, j as int);
                }
                stock / amount
            },
            None => 0,
        }
    }

    /// Adds each recipe ingredient that the pantry lacks to the pantry, with
    /// a stock of zero.
    pub fn adjust_pantry(&mut self)
        requires
            old(self).wf(),
        ensures
            final(self).wf(),
            final(self).recipe() == old(self).recipe(),
            forall|name: Seq<char>|
                lists(final(self).pantry(), name) <==> (lists(old(self).pantry(), name)
                    || lists(old(self).recipe(), name)),
            forall|name: Seq<char>| #[trigger]
                lists(final(self).pantry(), name) ==> amount_in(final(self).pantry(), name) == if lists(
                    old(self).pantry(),
                    name,
                ) {
                    amount_in(old(self).pantry(), name)
                } else {
                    0
                },
    {
        let ghost start = self.pantry@;
        let n = self.recipe.len();
        let mut i: usize = 0;
        while i < n
            invariant
                n == self.recipe@.len(),
                i <= n,
                self.recipe@ == old(self).recipe@,
                start == old(self).pantry@,
                distinct(self.recipe@),
                distinct(self.pantry@),
                start.len() <= self.pantry@.len(),
                self.pantry@.subrange(0, start.len() as int) == start,
                forall|k: int|
                    start.len() <= k < self.pantry@.len() ==> {
                        &&& #[trigger] self.pantry@[k].1 == 0
                        &&& lists(self.recipe@, self.pantry@[k].0@)
                    },
                forall|j: int| 0 <= j < i ==> lists(self.pantry@, #[trigger] self.recipe@[j].0@),
            decreases n - i,
        {
            let found = position_of(&self.pantry, &self.recipe[i].0);
            if found.is_none() {
                let name = self.recipe[i].0.clone();
                let ghost before = self.pantry@;
                proof {
                    lemma_listed_at(self.recipe@, i as int);
                }
                self.pantry.push((name, 0));
                proof {
                    lemma_push_names(before, (name, 0u64));
                    assert(self.pantry@.subrange(0, start.len() as int) =~= before.subrange(
                        0,
                        start.len() as int,
                    ));
                    assert forall|j: int| 0 <= j < i + 1 implies lists(
                        self.pantry@,
                        #[trigger] self.recipe@[j].0@,
                    ) by {
                        if j < i {
                            let k = lemma_index_of(before, self.recipe@[j].0@);
                            assert(self.pantry@[k] == before[k]);
                            lemma_listed_at(self.pantry@, k);
                        } else {
                            lemma_listed_at(self.pantry@, before.len() as int);
                        }
                    }
                    assert forall|k: int|
                        start.len() <= k < self.pantry@.len() implies {
                        &&& #[trigger] self.pantry@[k].1 == 0
                        &&& lists(self.recipe@, self.pantry@[k].0@)
                    } by {
                        if k < before.len() {
                            assert(self.pantry@[k] == before[k]);
                        }
                    }
                }
            } else {
                proof {
                    let j = found->Some_0 as int;
                    lemma_listed_at(self.pantry@, j);
                    assert forall|jj: int| 0 <= jj < i + 1 implies lists(
                        self.pantry@,
                        #[trigger] self.recipe@[jj].0@,
                    ) by {}
                }
            }
            i = i + 1;
        }
        proof {
            let fin = self.pantry@;
            assert forall|name: Seq<char>|
                lists(fin, name) <==> (lists(start, name) || lists(old(self).recipe@, name)) by {
                if lists(fin, name) {
                    let k = lemma_index_of(fin, name);
                    if k < start.len() {
                        assert(fin[k] == fin.subrange(0, start.len() as int)[k]);
                        assert(fin[k] == start[k]);
                        lemma_listed_at(start, k);
                    } else {
                        assert(fin[k].1 == 0);
                        assert(lists(self.recipe@, fin[k].0@));
                    }
                }
                if lists(start, name) {
                    let k = lemma_index_of(start, name);
                    assert(fin[k] == fin.subrange(0, start.len() as int)[k]);
                    assert(fin[k] == start[k]);
                    lemma_listed_at(fin, k);
                }
                if lists(old(self).recipe@, name) {
                    let j = lemma_index_of(old(self).recipe@, name);
                    assert(lists(fin, self.recipe@[j].0@));
                }
            }
            assert forall|name: Seq<char>| #[trigger]
                lists(fin, name) implies amount_in(fin, name) == if lists(start, name) {
                amount_in(start, name)
            } else {
                0
            } by {
                let k = lemma_index_of(fin, name);
                lemma_amount_at(fin, k);
                if lists(start, name) {
                    let k2 = lemma_index_of(start, name);
                    lemma_amount_at(start, k2);
                    assert(fin[k2] == fin.subrange(0, start.len() as int)[k2]);
                    assert(fin[k2] == start[k2]);
                    assert(names_of(fin)[k] == names_of(fin)[k2]);
                } else {
                    if k < start.len() {
                        assert(fin[k] == fin.subrange(0, start.len() as int)[k]);
                        assert(fin[k] == start[k]);
                        lemma_listed_at(start, k);
                    }
                }
            }
        }
    }

    /// Bakes as many cookies as the pantry allows and takes their
    /// ingredients out of the pantry.
    pub fn bake(&self) -> (r: BakeOutput)
        requires
            self.wf(),
        ensures
            r.cookies == batches(self.recipe(), self.pantry()),
            r.pantry@.len() == self.pantry().len(),
            forall|i: int|
                0 <= i < r.pantry@.len() ==> {
                    &&& #[trigger] r.pantry@[i].0@ == self.pantry()[i].0@
                    &&& r.pantry@[i].1 == left_after(self.recipe(), r.cookies, self.pantry()[i])
                },
    {
        let cookies = self.find_amount_baked();
        let n = self.pantry.len();
        let mut left: Vec<(String, u64)> = Vec::new();
        let mut i: usize = 0;
        while i < n
            invariant
                self.wf(),
                n == self.pantry@.len(),
                i <= n,
                cookies == batches(self.recipe@, self.pantry@),
                left@.len() == i,
                forall|k: int|
                    0 <= k < i ==> {
                        &&& #[trigger] left@[k].0@ == self.pantry@[k].0@
                        &&& left@[k].1 == left_after(self.recipe@, cookies, self.pantry@[k])
                    },
            decreases n - i,
        {
            let stock = self.pantry[i].1;
            let remaining = match position_of(&self.recipe, &self.pantry[i].0) {
                Some(j) => {
                    let amount = self.recipe[j].1;
                    proof {
                        lemma_amount_at(self.recipe@, j as int);
                        lemma_amount_at(self.pantry@, i as int);
                        lemma_batches_at_most(self.recipe@, self.pantry@, j as int);
                        if amount > 0 {
                            lemma_take_fits(cookies, amount, stock);
                        }
                    }
                    stock - cookies * amount
                },
                None => stock,
            };
            left.push((self.pantry[i].0.clone(), remaining));
            i = i + 1;
        }
        BakeOutput { cookies, pantry: left }
    }
}

/// Tells whether no name appears twice in `list`.
fn has_distinct_names(list: &Vec<(String, u64)>) -> (r: bool)
    ensures
        r == distinct(list@),
{
    let n = list.len();
    let mut i: usize = 0;
    while i < n
        invariant
            n == list@.len(),
            i <= n,
            forall|a: int, b: int| 0 <= a < b < i ==> list@[a].0@ != list@[b].0@,
        decreases n - i,
    {
        let mut j: usize = 0;
        while j < i
            invariant
                n == list@.len(),
                j <= i < n,
                forall|b: int| 0 <= b < j ==> list@[b].0@ != list@[i as int].0@,
            decreases i - j,
        {
            if list[j].0 == list[i].0 {
                proof {
                    assert(names_of(list@)[j as int] == names_of(list@)[i as int]);
                }
                return false;
            }
            j = j + 1;
        }
        i = i + 1;
    }
    proof {
        assert forall|a: int, b: int|
            0 <= a < names_of(list@).len() && 0 <= b < names_of(list@).len() && a != b implies
            names_of(list@)[a] != names_of(list@)[b] by {
            if a < b {
                assert(list@[a].0@ != list@[b].0@);
            } else {
                assert(list@[b].0@ != list@[a].0@);
            }
        }
    }
    true
}

/// An index at which `list` names `name`.
proof fn lemma_index_of(list: Seq<(String, u64)>, name: Seq<char>) -> (i: int)
    requires
        lists(list, name),
    ensures
        0 <= i < list.len(),
        list[i].0@ == name,
{
    let i = choose|i: int| 0 <= i < names_of(list).len() && names_of(list)[i] == name;
    i
}

/// A list names the ingredient on each of its lines.
proof fn lemma_listed_at(list: Seq<(String, u64)>, i: int)
    requires
        0 <= i < list.len(),
    ensures
        lists(list, list[i].0@),
{
    assert(names_of(list)[i] == list[i].0@);
}

/// Adding a line with a new name keeps the names distinct.
proof fn lemma_push_names(list: Seq<(String, u64)>, e: (String, u64))
    requires
        distinct(list),
        !lists(list, e.0@),
    ensures
        names_of(list.push(e)) == names_of(list).push(e.0@),
        distinct(list.push(e)),
{
    assert(names_of(list.push(e)) =~= names_of(list).push(e.0@));
}

/// Taking `cookies` times `amount` out of a stock of `stock` leaves no debt
/// when `cookies` is at most `stock / amount`.
proof fn lemma_take_fits(cookies: u64, amount: u64, stock: u64)
    requires
        amount > 0,
        cookies <= stock / amount,
    ensures
        cookies * amount <= stock,
{
    let q = stock / amount;
    vstd::arithmetic::div_mod::lemma_fundamental_div_mod(stock as int, amount as int);
    vstd::arithmetic::mul::lemma_mul_inequality(cookies as int, q as int, amount as int);
    vstd::arithmetic::div_mod::lemma_mod_pos_bound(stock as int, amount as int);
    assert(q * amount == amount * q) by (nonlinear_arith);
}

} // verus!
