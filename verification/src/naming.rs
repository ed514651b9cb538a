//! The naming service: unique identifier numbers and deduplicated names.

use vstd::prelude::*;
use vstd::string::*;
use vstd::set_lib::lemma_len_subset;
use vstd::seq_lib::seq_to_set_is_finite;
use indexmap::IndexSet;
use crate::namemap::{name_order, name_set_clear, name_set_insert, name_set_new, name_set_position};
use crate::rational::{abs_int, Integer};
use crate::text::{all_digits, concat, is_digit, lemma_nat_text_digits, lemma_nat_text_injective, nat_text};

verus! {

/// Names longer than this many characters are replaced by a short synthetic
/// name.
pub const MAX_NAME_LENGTH: usize = 40;

/// `var_` followed by the number `k`.
pub open spec fn synthetic_name(k: int) -> Seq<char> {
    seq!['v', 'a', 'r', '_'] + nat_text(k as nat)
}

/// `r_` and the number `k`, followed by an underscore and `base` unless
/// `base` is empty.
pub open spec fn suffixed_name(k: int, base: Seq<char>) -> Seq<char> {
    if base.len() == 0 {
        seq!['r', '_'] + nat_text(k as nat)
    } else {
        seq!['r', '_'] + nat_text(k as nat) + seq!['_'] + base
    }
}

/// The first number from `k` on whose suffixed variant of `base` is not in
/// `names`, looking at no more than `fuel` numbers after `k`.
pub open spec fn first_free(names: Set<Seq<char>>, base: Seq<char>, k: int, fuel: nat) -> int
    decreases fuel,
{
    if fuel == 0 || !names.contains(suffixed_name(k, base)) {
        k
    } else {
        first_free(names, base, k + 1, (fuel - 1) as nat)
    }
}

/// The suffixed variants of `base` with the `n` numbers after `start`.
pub open spec fn variants(base: Seq<char>, start: int, n: nat) -> Set<Seq<char>>
    decreases n,
{
    if n == 0 {
        Set::empty()
    } else {
        variants(base, start, (n - 1) as nat).insert(suffixed_name(start + n, base))
    }
}

/// What the naming service knows: how many identifier numbers it has issued,
/// the counter behind its suffixed and synthetic names, and the names it has
/// handed out.
pub struct NamerState {
    pub ids: nat,
    pub counter: int,
    pub names: Set<Seq<char>>,
}

impl NamerState {
    /// The state of a service that has issued nothing.
    pub open spec fn initial() -> NamerState {
        NamerState { ids: 0, counter: 0, names: Set::empty() }
    }

    /// The counter is not negative and the names are finitely many.
    pub open spec fn wf(self) -> bool {
        self.counter >= 0 && self.names.finite()
    }

    /// The requested name, or a synthetic name in place of an overlong one.
    pub open spec fn base_name(self, requested: Seq<char>) -> Seq<char> {
        if requested.len() > MAX_NAME_LENGTH {
            synthetic_name(self.counter + 1)
        } else {
            requested
        }
    }

    /// The counter once the base name is settled.
    pub open spec fn base_counter(self, requested: Seq<char>) -> int {
        if requested.len() > MAX_NAME_LENGTH {
            self.counter + 1
        } else {
            self.counter
        }
    }

    /// The number of the suffixed variant that a request for a taken name
    /// yields: the first after the counter whose variant is free.
    pub open spec fn suffix_number(self, requested: Seq<char>) -> int {
        first_free(
            self.names,
            self.base_name(requested),
            self.base_counter(requested) + 1,
            self.names.len(),
        )
    }

    /// The name that a request for `requested` yields: the base name if it was
    /// not handed out before, otherwise its first suffixed variant that was
    /// not.
    pub open spec fn unique_name(self, requested: Seq<char>) -> Seq<char> {
        if self.names.contains(self.base_name(requested)) {
            suffixed_name(self.suffix_number(requested), self.base_name(requested))
        } else {
            self.base_name(requested)
        }
    }

    /// The counter after a request for `requested`.
    pub open spec fn counter_after(self, requested: Seq<char>) -> int {
        if self.names.contains(self.base_name(requested)) {
            self.suffix_number(requested)
        } else {
            self.base_counter(requested)
        }
    }

    /// The state after a name was generated for `requested` but not recorded.
    pub open spec fn after_generate(self, requested: Seq<char>) -> NamerState {
        NamerState { counter: self.counter_after(requested), ..self }
    }

    /// The state after a name was generated for `requested` and recorded.
    pub open spec fn after_name(self, requested: Seq<char>) -> NamerState {
        NamerState {
            counter: self.counter_after(requested),
            names: self.names.insert(self.unique_name(requested)),
            ..self
        }
    }

    /// The state after one more identifier number was issued.
    pub open spec fn after_id(self) -> NamerState {
        NamerState { ids: self.ids + 1, ..self }
    }

    /// How many more identifiers can be created before the identifier
    /// numbers would leave their machine type.
    pub open spec fn room(self) -> nat {
        if self.ids <= usize::MAX {
            (usize::MAX - self.ids) as nat
        } else {
            0
        }
    }
}

/// In `r_`, digits, an underscore and a rest, the digits can be read back:
/// two such texts that are equal have the same digits.
proof fn lemma_suffixed_digits(d1: Seq<char>, x1: Seq<char>, d2: Seq<char>, x2: Seq<char>)
    requires
        all_digits(d1),
        all_digits(d2),
        d1.len() <= d2.len(),
        seq!['r', '_'] + d1 + x1 == seq!['r', '_'] + d2 + x2,
        x1.len() > 0 ==> x1[0] == '_',
        x2.len() > 0 ==> x2[0] == '_',
    ensures
        d1 == d2,
{
    let s1 = seq!['r', '_'] + d1 + x1;
    let s2 = seq!['r', '_'] + d2 + x2;
    assert(s1.len() == 2 + d1.len() + x1.len());
    assert(s2.len() == 2 + d2.len() + x2.len());
    if d1.len() < d2.len() {
        let p = 2 + d1.len() as int;
        assert(x1.len() > 0);
        assert(s1[p] == x1[0]);
        assert(s2[p] == d2[p - 2]);
        assert(is_digit(d2[p - 2]));
        assert(false);
    }
    assert forall|i: int| 0 <= i < d1.len() implies d1[i] == d2[i] by {
        assert(s1[i + 2] == d1[i]);
        assert(s2[i + 2] == d2[i]);
    }
    assert(d1 =~= d2);
}

/// Suffixed names made with different numbers differ, whatever they suffix.
proof fn lemma_suffixed_names_differ(k1: int, b1: Seq<char>, k2: int, b2: Seq<char>)
    requires
        0 <= k1,
        0 <= k2,
        k1 != k2,
    ensures
        suffixed_name(k1, b1) != suffixed_name(k2, b2),
{
    let d1 = nat_text(k1 as nat);
    let d2 = nat_text(k2 as nat);
    lemma_nat_text_digits(k1 as nat);
    lemma_nat_text_digits(k2 as nat);
    let x1 = if b1.len() == 0 { Seq::<char>::empty() } else { seq!['_'] + b1 };
    let x2 = if b2.len() == 0 { Seq::<char>::empty() } else { seq!['_'] + b2 };
    assert(suffixed_name(k1, b1) =~= seq!['r', '_'] + d1 + x1);
    assert(suffixed_name(k2, b2) =~= seq!['r', '_'] + d2 + x2);
    if suffixed_name(k1, b1) == suffixed_name(k2, b2) {
        if d1.len() <= d2.len() {
            lemma_suffixed_digits(d1, x1, d2, x2);
        } else {
            lemma_suffixed_digits(d2, x2, d1, x1);
        }
        lemma_nat_text_injective(k1 as nat, k2 as nat);
    }
}

/// `first_free` never goes back.
pub proof fn lemma_first_free_goes_on(names: Set<Seq<char>>, base: Seq<char>, k: int, fuel: nat)
    ensures
        first_free(names, base, k, fuel) >= k,
    decreases fuel,
{
    if fuel > 0 && names.contains(suffixed_name(k, base)) {
        lemma_first_free_goes_on(names, base, k + 1, (fuel - 1) as nat);
    }
}

/// The variants of `base` with the `n` numbers after `start` are `n`
/// different names, each the variant of one of those numbers.
pub proof fn lemma_variants(base: Seq<char>, start: int, n: nat)
    requires
        start >= 0,
    ensures
        variants(base, start, n).finite(),
        variants(base, start, n).len() == n,
        forall|x: Seq<char>| #[trigger]
            variants(base, start, n).contains(x) <==> exists|j: int|
                start < j <= start + n && x == #[trigger] suffixed_name(j, base),
    decreases n,
{
    if n > 0 {
        let earlier = variants(base, start, (n - 1) as nat);
        let last = suffixed_name(start + n, base);
        lemma_variants(base, start, (n - 1) as nat);
        if earlier.contains(last) {
            let j = choose|j: int| start < j <= start + n - 1 && last == #[trigger] suffixed_name(j, base);
            lemma_suffixed_names_differ(j, base, start + n, base);
        }
        assert forall|x: Seq<char>| #[trigger]
            variants(base, start, n).contains(x) <==> exists|j: int|
                start < j <= start + n && x == #[trigger] suffixed_name(j, base) by {
            if variants(base, start, n).contains(x) {
                if x == last {
                    assert(x == suffixed_name(start + n, base));
                } else {
                    assert(earlier.contains(x));
                    let j = choose|j: int|
                        start < j <= start + n - 1 && x == #[trigger] suffixed_name(j, base);
                    assert(start < j <= start + n && x == suffixed_name(j, base));
                }
            }
            if exists|j: int| start < j <= start + n && x == #[trigger] suffixed_name(j, base) {
                let j = choose|j: int| start < j <= start + n && x == #[trigger] suffixed_name(j, base);
                if j < start + n {
                    assert(start < j <= start + n - 1 && x == suffixed_name(j, base));
                    assert(earlier.contains(x));
                }
            }
        }
    }
}

/// Among finitely many names, no more variants of one base with numbers in
/// a row are taken than there are names.
pub proof fn lemma_taken_variants(names: Set<Seq<char>>, base: Seq<char>, start: int, n: nat)
    requires
        names.finite(),
        start >= 0,
        forall|j: int| start < j <= start + n ==> names.contains(#[trigger] suffixed_name(j, base)),
    ensures
        n <= names.len(),
{
    lemma_variants(base, start, n);
    assert(variants(base, start, n).subset_of(names)) by {
        assert forall|x: Seq<char>| variants(base, start, n).contains(x) implies names.contains(
            x,
        ) by {
            let j = choose|j: int| start < j <= start + n && x == #[trigger] suffixed_name(j, base);
            assert(names.contains(suffixed_name(j, base)));
        }
    }
    lemma_len_subset(variants(base, start, n), names);
}

/// `first_free` finds the first free variant: when every variant between
/// `start` and `k` is taken and the fuel is what is left of the number of
/// names, the number found is free and every variant before it is taken.
pub proof fn lemma_first_free(
    names: Set<Seq<char>>,
    base: Seq<char>,
    start: int,
    k: int,
    fuel: nat,
)
    requires
        names.finite(),
        0 <= start < k,
        forall|j: int| start < j < k ==> names.contains(#[trigger] suffixed_name(j, base)),
        fuel + (k - start - 1) == names.len(),
    ensures
        first_free(names, base, k, fuel) >= k,
        !names.contains(suffixed_name(first_free(names, base, k, fuel), base)),
        forall|j: int|
            start < j < first_free(names, base, k, fuel) ==> names.contains(
                #[trigger] suffixed_name(j, base),
            ),
    decreases fuel,
{
    if names.contains(suffixed_name(k, base)) {
        lemma_taken_variants(names, base, start, (k - start) as nat);
        lemma_first_free(names, base, start, k + 1, (fuel - 1) as nat);
    }
}

/// The name that a request yields was not handed out before: a free name
/// that is not overlong comes back as it is, and for a taken name the
/// counter goes on to the first number whose variant is free.
pub proof fn lemma_name_is_new(state: NamerState, requested: Seq<char>)
    requires
        state.wf(),
    ensures
        !state.names.contains(state.unique_name(requested)),
        state.after_name(requested).wf(),
        state.after_name(requested).counter >= state.counter,
        requested.len() <= MAX_NAME_LENGTH && !state.names.contains(requested)
            ==> state.unique_name(requested) == requested && state.counter_after(requested)
            == state.counter,
        state.names.contains(state.base_name(requested)) ==> state.counter_after(requested)
            > state.base_counter(requested) && forall|j: int|
            state.base_counter(requested) < j < state.counter_after(requested)
                ==> state.names.contains(
                #[trigger] suffixed_name(j, state.base_name(requested)),
            ),
{
    let base = state.base_name(requested);
    let start = state.base_counter(requested);
    if state.names.contains(base) {
        lemma_first_free(state.names, base, start, start + 1, state.names.len());
    }
}

/// Ten to the power `d`.
pub open spec fn ten_to(d: nat) -> nat
    decreases d,
{
    if d == 0 {
        1
    } else {
        10 * ten_to((d - 1) as nat)
    }
}

/// A number below ten to the power `d` has at most `d` digits.
pub proof fn lemma_digits_of(n: nat, d: nat)
    requires
        d >= 1,
        n < ten_to(d),
    ensures
        nat_text(n).len() <= d,
    decreases d,
{
    if n >= 10 {
        assert(ten_to(1) == 10 * ten_to(0));
        assert(d >= 2);
        lemma_digits_of(n / 10, (d - 1) as nat);
    }
}

/// The name that stands in for an overlong one is short and is another
/// name than the one asked for, as long as the counter stays below ten to
/// the power sixteen.
pub proof fn lemma_overlong_name_is_short(state: NamerState, requested: Seq<char>)
    requires
        state.wf(),
        requested.len() > MAX_NAME_LENGTH,
        state.counter_after(requested) < ten_to(16),
    ensures
        state.unique_name(requested).len() <= MAX_NAME_LENGTH,
        state.unique_name(requested) != requested,
        !state.names.contains(state.unique_name(requested)),
{
    lemma_name_is_new(state, requested);
    let base = state.base_name(requested);
    lemma_first_free_goes_on(state.names, base, state.counter + 2, state.names.len());
    assert(state.counter + 1 <= state.counter_after(requested));
    lemma_digits_of((state.counter + 1) as nat, 16);
    lemma_nat_text_digits((state.counter + 1) as nat);
    assert(base.len() == 4 + nat_text((state.counter + 1) as nat).len());
    if state.names.contains(base) {
        let k = state.suffix_number(requested);
        lemma_digits_of(k as nat, 16);
        assert(suffixed_name(k, base).len() == 2 + nat_text(k as nat).len() + 1 + base.len());
    }
}

/// Asking twice for the same name never yields the same name twice, whatever
/// was handed out before and whatever is asked for in between: a name that
/// was handed out is never handed out again.
pub proof fn lemma_same_request_twice(state: NamerState, requested: Seq<char>)
    requires
        state.wf(),
    ensures
        state.unique_name(requested) != state.after_name(requested).unique_name(requested),
{
    lemma_name_is_new(state, requested);
    lemma_name_is_new(state.after_name(requested), requested);
}

/// The state after the first `n` of `requests` were answered in turn.
pub open spec fn after_requests(state: NamerState, requests: Seq<Seq<char>>, n: nat) -> NamerState
    decreases n,
{
    if n == 0 {
        state
    } else {
        after_requests(state, requests, (n - 1) as nat).after_name(requests[n - 1])
    }
}

/// The answer to request `i` of `requests`, answered in turn.
pub open spec fn answer(state: NamerState, requests: Seq<Seq<char>>, i: int) -> Seq<char> {
    after_requests(state, requests, i as nat).unique_name(requests[i])
}

/// Every answer stays among the names, and the state stays well formed.
pub proof fn lemma_answers_stay(state: NamerState, requests: Seq<Seq<char>>, i: int, n: nat)
    requires
        state.wf(),
        0 <= i < n <= requests.len(),
    ensures
        after_requests(state, requests, n).wf(),
        after_requests(state, requests, n).names.contains(answer(state, requests, i)),
        forall|x: Seq<char>|
            state.names.contains(x) ==> after_requests(state, requests, n).names.contains(x),
    decreases n,
{
    lemma_requests_keep(state, requests, (n - 1) as nat);
    lemma_name_is_new(after_requests(state, requests, (n - 1) as nat), requests[n - 1]);
    if i < n - 1 {
        lemma_answers_stay(state, requests, i, (n - 1) as nat);
    }
}

/// Answering requests keeps the state well formed and forgets no name.
pub proof fn lemma_requests_keep(state: NamerState, requests: Seq<Seq<char>>, n: nat)
    requires
        state.wf(),
        n <= requests.len(),
    ensures
        after_requests(state, requests, n).wf(),
        forall|x: Seq<char>|
            state.names.contains(x) ==> after_requests(state, requests, n).names.contains(x),
    decreases n,
{
    if n > 0 {
        lemma_requests_keep(state, requests, (n - 1) as nat);
        lemma_name_is_new(after_requests(state, requests, (n - 1) as nat), requests[n - 1]);
    }
}

/// No two live names are equal: of any requests answered in turn, whatever
/// they ask for, no answer is a name that was handed out before them and no
/// two answers are the same.
pub proof fn lemma_answers_differ(state: NamerState, requests: Seq<Seq<char>>, i: int, j: int)
    requires
        state.wf(),
        0 <= i < j < requests.len(),
    ensures
        answer(state, requests, i) != answer(state, requests, j),
        !state.names.contains(answer(state, requests, i)),
{
    lemma_answers_stay(state, requests, i, j as nat);
    lemma_name_is_new(after_requests(state, requests, j as nat), requests[j]);
    lemma_requests_keep(state, requests, i as nat);
    lemma_name_is_new(after_requests(state, requests, i as nat), requests[i]);
}

/// The naming service of one analysis run.
pub struct Namer {
    id_counter: usize,
    name_counter: Integer,
    names: IndexSet<String>,
}

impl View for Namer {
    type V = NamerState;

    closed spec fn view(&self) -> NamerState {
        NamerState {
            ids: self.id_counter as nat,
            counter: abs_int(self.name_counter@) as int,
            names: name_order(self.names).to_set(),
        }
    }
}

impl Namer {
    /// What holds of every naming service: the identifier numbers fit their
    /// machine type, the counter is not negative and the names are finitely
    /// many.
    pub proof fn lemma_view(&self)
        ensures
            self@.ids <= usize::MAX,
            self@.wf(),
    {
        seq_to_set_is_finite(name_order(self.names));
    }

    /// A service that has issued nothing yet.
    pub fn new() -> (r: Namer)
        ensures
            r@ == NamerState::initial(),
    {
        let r = Namer { id_counter: 0, name_counter: Integer::from_u32(0), names: name_set_new() };
        assert(r@.names =~= Set::empty());
        r
    }

    /// Forgets every identifier number and name, as a new service would.
    pub fn reset(&mut self)
        ensures
            final(self)@ == NamerState::initial(),
    {
        self.id_counter = 0;
        self.name_counter = Integer::from_u32(0);
        name_set_clear(&mut self.names);
        assert(self@.names =~= Set::empty());
    }

    /// Whether `n` more identifiers can be created.
    pub fn has_room(&self, n: usize) -> (r: bool)
        ensures
            r == (self@.room() >= n),
            self@.counter >= 0,
    {
        usize::MAX - self.id_counter >= n
    }
}

/// Issues the next identifier number: one more than the last.
pub fn gen_unique_id(namer: &mut Namer) -> (r: usize)
    requires
        old(namer)@.ids < usize::MAX,
    ensures
        r == old(namer)@.ids + 1,
        final(namer)@ == old(namer)@.after_id(),
{
    namer.id_counter = namer.id_counter + 1;
    namer.id_counter
}

/// Forgets all names and restarts the counter behind suffixed and synthetic
/// names; the identifier numbers go on.
pub fn clear_all_names(namer: &mut Namer)
    ensures
        final(namer)@ == (NamerState { counter: 0, names: Set::empty(), ..old(namer)@ }),
{
    name_set_clear(&mut namer.names);
    namer.name_counter = Integer::from_u32(0);
    assert(namer@.names =~= Set::empty());
}

/// The suffixed variant of `base` with the number whose text is `number`.
fn make_variant(number: &str, base: &str, Ghost(k): Ghost<int>) -> (r: String)
    requires
        k >= 0,
        number@ == nat_text(k as nat),
    ensures
        r@ == suffixed_name(k, base@),
{
    proof {
        reveal_strlit("r_");
        reveal_strlit("_");
        assert("r_"@ =~= seq!['r', '_']);
        assert("_"@ =~= seq!['_']);
    }
    let mut name = concat("r_", number);
    if base.unicode_len() > 0 {
        name.append("_");
        name.append(base);
    }
    name
}

/// Generates a name for `prefix` that was not handed out before, without
/// recording it: `prefix` itself where it is free and not overlong, a
/// synthetic name in place of an overlong one, and for a name that is taken
/// its first suffixed variant that is free.
pub fn generate_name_if_needed(namer: &mut Namer, prefix: &str) -> (r: String)
    ensures
        r@ == old(namer)@.unique_name(prefix@),
        final(namer)@ == old(namer)@.after_generate(prefix@),
        !old(namer)@.names.contains(r@),
        prefix@.len() <= MAX_NAME_LENGTH && !old(namer)@.names.contains(prefix@) ==> r@
            == prefix@,
{
    let ghost before = namer@;
    proof {
        namer.lemma_view();
        lemma_name_is_new(before, prefix@);
    }
    let base = if prefix.unicode_len() > MAX_NAME_LENGTH {
        let next = namer.name_counter.next_magnitude();
        let number = next.to_text();
        namer.name_counter = next;
        proof {
            reveal_strlit("var_");
            assert("var_"@ =~= seq!['v', 'a', 'r', '_']);
        }
        concat("var_", number.as_str())
    } else {
        String::from_str(prefix)
    };
    assert(base@ == before.base_name(prefix@));
    assert(namer@.counter == before.base_counter(prefix@));
    if name_set_position(&namer.names, base.as_str()).is_none() {
        return base;
    }
    let ghost start = before.base_counter(prefix@);
    let ghost total = before.names.len();
    let mut count = namer.name_counter.next_magnitude();
    let mut number = count.to_text();
    let mut candidate = make_variant(number.as_str(), base.as_str(), Ghost(count@));
    let ghost mut fuel: nat = total;
    while name_set_position(&namer.names, candidate.as_str()).is_some()
        invariant
            before.names.finite(),
            before.names == name_order(namer.names).to_set(),
            total == before.names.len(),
            0 <= start < count@,
            candidate@ == suffixed_name(count@, base@),
            forall|j: int|
                start < j < count@ ==> before.names.contains(#[trigger] suffixed_name(j, base@)),
            fuel + (count@ - start - 1) == total,
            first_free(before.names, base@, count@, fuel) == first_free(
                before.names,
                base@,
                start + 1,
                total,
            ),
        decreases fuel,
    {
        proof {
            lemma_taken_variants(before.names, base@, start, (count@ - start) as nat);
            fuel = (fuel - 1) as nat;
        }
        count = count.next_magnitude();
        number = count.to_text();
        candidate = make_variant(number.as_str(), base.as_str(), Ghost(count@));
    }
    namer.name_counter = count;
    candidate
}

/// Hands out a name for `name` that was not handed out before, and records
/// it: `name` itself where it is free and not overlong.
pub fn add_name(namer: &mut Namer, name: &str) -> (r: String)
    ensures
        r@ == old(namer)@.unique_name(name@),
        final(namer)@ == old(namer)@.after_name(name@),
        !old(namer)@.names.contains(r@),
        final(namer)@.names == old(namer)@.names.insert(r@),
        name@.len() <= MAX_NAME_LENGTH && !old(namer)@.names.contains(name@) ==> r@ == name@,
{
    let new_name = generate_name_if_needed(namer, name);
    let ghost order = name_order(namer.names);
    let _ = name_set_insert(&mut namer.names, new_name.clone());
    assert(namer@.names =~= order.to_set().insert(new_name@)) by {
        if order.contains(new_name@) {
            assert(name_order(namer.names) == order);
        } else {
            assert(name_order(namer.names) == order.push(new_name@));
            assert forall|x: Seq<char>| order.push(new_name@).to_set().contains(x)
                == order.to_set().insert(new_name@).contains(x) by {
                if order.push(new_name@).contains(x) {
                    let i = choose|i: int|
                        0 <= i < order.push(new_name@).len() && order.push(new_name@)[i] == x;
                    if i < order.len() {
                        assert(order[i] == x);
                    }
                }
                if order.contains(x) {
                    let i = choose|i: int| 0 <= i < order.len() && order[i] == x;
                    assert(order.push(new_name@)[i] == x);
                }
                if x == new_name@ {
                    assert(order.push(new_name@)[order.len() as int] == x);
                }
            }
        }
    }
    new_name
}

} // verus!
