//! Training parameters: a map from names to values, kept in key order, and its
//! serialisation into the `key=value` configuration string of the native engine.
use vstd::prelude::*;
use crate::error::{ErrorKind, LgbmError};

verus! {

/// A parameter value, as the configuration string needs it.
#[derive(Debug)]
pub enum ParamValue {
    /// An integer, written in decimal.
    Int(i64),
    /// A flag, written `true` or `false`.
    Bool(bool),
    /// A text, written as a quoted JSON string.
    Str(String),
    /// A value already in its JSON text (a fractional number, `null`), written as it is.
    Raw(String),
    /// A list of texts, written as one quoted, comma-joined token.
    List(Vec<String>),
}

/// The mathematical value of a `ParamValue`.
pub enum ParamView {
    Int(i64),
    Bool(bool),
    Str(Seq<char>),
    Raw(Seq<char>),
    List(Seq<Seq<char>>),
}

impl View for ParamValue {
    type V = ParamView;

    open spec fn view(&self) -> ParamView {
        match self {
            ParamValue::Int(i) => ParamView::Int(*i),
            ParamValue::Bool(b) => ParamView::Bool(*b),
            ParamValue::Str(s) => ParamView::Str(s@),
            ParamValue::Raw(s) => ParamView::Raw(s@),
            ParamValue::List(items) => ParamView::List(items@.map_values(|t: String| t@)),
        }
    }
}

/// Lexicographic order on names, character by character (the order of a JSON object's keys).
pub open spec fn key_lt(a: Seq<char>, b: Seq<char>) -> bool
    decreases a.len(),
{
    if a.len() == 0 {
        b.len() > 0
    } else if b.len() == 0 {
        false
    } else if a[0] != b[0] {
        a[0] < b[0]
    } else {
        key_lt(a.drop_first(), b.drop_first())
    }
}

/// Names strictly increase along the entries, so each name occurs once.
pub open spec fn keys_sorted(entries: Seq<(Seq<char>, ParamView)>) -> bool {
    forall|i: int, j: int|
        0 <= i < j < entries.len() ==> key_lt(#[trigger] entries[i].0, #[trigger] entries[j].0)
}

/// The value that `entries` give to `key`, if any.
pub open spec fn lookup(entries: Seq<(Seq<char>, ParamView)>, key: Seq<char>) -> Option<ParamView>
    decreases entries.len(),
{
    if entries.len() == 0 {
        None
    } else if entries.last().0 == key {
        Some(entries.last().1)
    } else {
        lookup(entries.drop_last(), key)
    }
}

proof fn lemma_key_lt_irreflexive(a: Seq<char>)
    ensures
        !key_lt(a, a),
    decreases a.len(),
{
    if a.len() > 0 {
        lemma_key_lt_irreflexive(a.drop_first());
    }
}

proof fn lemma_key_lt_total(a: Seq<char>, b: Seq<char>)
    ensures
        a != b ==> key_lt(a, b) || key_lt(b, a),
    decreases a.len(),
{
    if a.len() > 0 && b.len() > 0 && a[0] == b[0] {
        lemma_key_lt_total(a.drop_first(), b.drop_first());
        if a.drop_first() == b.drop_first() {
            assert(a =~= seq![a[0]] + a.drop_first());
            assert(b =~= seq![b[0]] + b.drop_first());
        }
    } else if a.len() == 0 && b.len() == 0 {
        assert(a =~= b);
    }
}

proof fn lemma_key_lt_transitive(a: Seq<char>, b: Seq<char>, c: Seq<char>)
    requires
        key_lt(a, b),
        key_lt(b, c),
    ensures
        key_lt(a, c),
    decreases a.len(),
{
    if a.len() > 0 && b.len() > 0 && c.len() > 0 && a[0] == b[0] && b[0] == c[0] {
        lemma_key_lt_transitive(a.drop_first(), b.drop_first(), c.drop_first());
    }
}

proof fn lemma_lookup_sorted(entries: Seq<(Seq<char>, ParamView)>, key: Seq<char>, i: int)
    requires
        keys_sorted(entries),
        0 <= i < entries.len(),
        entries[i].0 == key,
    ensures
        lookup(entries, key) == Some(entries[i].1),
    decreases entries.len(),
{
    if i < entries.len() - 1 {
        assert(key_lt(entries[i].0, entries[entries.len() - 1].0));
        lemma_key_lt_irreflexive(key);
        lemma_lookup_sorted(entries.drop_last(), key, i);
    }
}

proof fn lemma_lookup_absent(entries: Seq<(Seq<char>, ParamView)>, key: Seq<char>)
    requires
        forall|i: int| 0 <= i < entries.len() ==> (#[trigger] entries[i]).0 != key,
    ensures
        lookup(entries, key) is None,
    decreases entries.len(),
{
    if entries.len() > 0 {
        assert(entries[entries.len() - 1].0 != key);
        assert forall|i: int| 0 <= i < entries.drop_last().len() implies (
        #[trigger] entries.drop_last()[i]).0 != key by {
            assert(entries.drop_last()[i] == entries[i]);
        }
        lemma_lookup_absent(entries.drop_last(), key);
    }
}

/// Whether `a` comes before `b` in key order.
fn key_less(a: &str, b: &str) -> (r: bool)
    ensures
        r == key_lt(a@, b@),
{
    let la = a.unicode_len();
    let lb = b.unicode_len();
    let mut i: usize = 0;
    proof {
        assert(a@.skip(0) =~= a@);
        assert(b@.skip(0) =~= b@);
    }
    while i < la && i < lb
        invariant
            la == a@.len(),
            lb == b@.len(),
            0 <= i <= la,
            i <= lb,
            key_lt(a@, b@) == key_lt(a@.skip(i as int), b@.skip(i as int)),
        decreases la - i,
    {
        let ca = a.get_char(i);
        let cb = b.get_char(i);
        proof {
            assert(a@.skip(i as int)[0] == ca);
            assert(b@.skip(i as int)[0] == cb);
        }
        if ca != cb {
            return ca < cb;
        }
        proof {
            assert(a@.skip(i as int).drop_first() =~= a@.skip(i + 1));
            assert(b@.skip(i as int).drop_first() =~= b@.skip(i + 1));
        }
        i += 1;
    }
    i == la && i < lb
}

/// A map from parameter names to values, kept in key order.
#[derive(Debug)]
pub struct Params {
    entries: Vec<(String, ParamValue)>,
}

impl View for Params {
    type V = Seq<(Seq<char>, ParamView)>;

    closed spec fn view(&self) -> Seq<(Seq<char>, ParamView)> {
        self.entries@.map_values(|e: (String, ParamValue)| (e.0@, e.1@))
    }
}

impl Params {
    /// The entries are in strictly increasing key order.
    pub open spec fn wf(&self) -> bool {
        keys_sorted(self@)
    }

    /// An empty map.
    pub fn new() -> (r: Params)
        ensures
            r.wf(),
            r@ == Seq::<(Seq<char>, ParamView)>::empty(),
    {
        let r = Params { entries: Vec::new() };
        assert(r@ =~= Seq::<(Seq<char>, ParamView)>::empty());
        r
    }

    /// The number of entries.
    pub fn len(&self) -> (r: usize)
        ensures
            r == self@.len(),
    {
        self.entries.len()
    }

    /// Sets `key` to `value`: an existing entry of that name is replaced in place,
    /// otherwise a new entry goes where key order puts it.
    pub fn insert(&mut self, key: String, value: ParamValue)
        requires
            old(self).wf(),
        ensures
            final(self).wf(),
            forall|i: int|
                0 <= i < old(self)@.len() && (#[trigger] old(self)@[i]).0 == key@ ==> final(self)@
                    == old(self)@.update(i, (key@, value@)),
            (forall|i: int| 0 <= i < old(self)@.len() ==> (#[trigger] old(self)@[i]).0 != key@)
                ==> exists|p: int|
                0 <= p <= old(self)@.len() && final(self)@ == old(self)@.insert(p, (key@, value@)),
            lookup(final(self)@, key@) == Some(value@),
    {
        let ghost old_view = self@;
        let mut p: usize = 0;
        while p < self.entries.len() && key_less(self.entries[p].0.as_str(), key.as_str())
            invariant
                self@ == old_view,
                keys_sorted(old_view),
                p <= old_view.len(),
                self.entries@.len() == old_view.len(),
                forall|j: int| 0 <= j < p ==> key_lt(#[trigger] old_view[j].0, key@),
            decreases old_view.len() - p,
        {
            p += 1;
        }
        proof {
            lemma_key_lt_irreflexive(key@);
        }
        if p < self.entries.len() && self.entries[p].0 == key {
            let ghost new_view = old_view.update(p as int, (key@, value@));
            self.entries.remove(p);
            self.entries.insert(p, (key, value));
            proof {
                assert(self@ =~= new_view);
                assert(old_view[p as int].0 == key@);
                assert forall|i: int, j: int| 0 <= i < j < new_view.len() implies key_lt(
                    #[trigger] new_view[i].0,
                    #[trigger] new_view[j].0,
                ) by {
                    assert(key_lt(old_view[i].0, old_view[j].0));
                }
                assert forall|i: int|
                    0 <= i < old_view.len() && (#[trigger] old_view[i]).0 == key@ implies i
                    == p by {
                    if i < p {
                        assert(key_lt(old_view[i].0, key@));
                    } else if i > p {
                        assert(key_lt(old_view[p as int].0, old_view[i].0));
                    }
                }
                assert(new_view[p as int] == (key@, value@));
                lemma_lookup_sorted(new_view, key@, p as int);
            }
        } else {
            let ghost new_view = old_view.insert(p as int, (key@, value@));
            self.entries.insert(p, (key, value));
            proof {
                assert(self@ =~= new_view);
                if p < old_view.len() {
                    lemma_key_lt_total(key@, old_view[p as int].0);
                    assert(key_lt(key@, old_view[p as int].0));
                }
                assert forall|i: int, j: int| 0 <= i < j < new_view.len() implies key_lt(
                    #[trigger] new_view[i].0,
                    #[trigger] new_view[j].0,
                ) by {
                    if j < p {
                        assert(new_view[i] == old_view[i] && new_view[j] == old_view[j]);
                    } else if j == p {
                        assert(new_view[i] == old_view[i]);
                    } else if i == p {
                        if j - 1 > p {
                            assert(key_lt(old_view[p as int].0, old_view[j - 1].0));
                            lemma_key_lt_transitive(key@, old_view[p as int].0, old_view[j - 1].0);
                        }
                    } else if i < p {
                        assert(key_lt(old_view[i].0, key@));
                        if j - 1 > p {
                            assert(key_lt(old_view[p as int].0, old_view[j - 1].0));
                            lemma_key_lt_transitive(key@, old_view[p as int].0, old_view[j - 1].0);
                        }
                        lemma_key_lt_transitive(old_view[i].0, key@, old_view[j - 1].0);
                    } else {
                        assert(new_view[i] == old_view[i - 1] && new_view[j] == old_view[j - 1]);
                    }
                }
                assert forall|i: int| 0 <= i < old_view.len() implies (#[trigger] old_view[i]).0
                    != key@ by {
                    if i < p {
                        assert(key_lt(old_view[i].0, key@));
                    } else if i > p {
                        assert(key_lt(old_view[p as int].0, old_view[i].0));
                        lemma_key_lt_transitive(key@, old_view[p as int].0, old_view[i].0);
                    }
                }
                assert(new_view[p as int] == (key@, value@));
                lemma_lookup_sorted(new_view, key@, p as int);
                assert(0 <= p <= old_view.len() && self@ == old_view.insert(p as int, (key@, value@)));
            }
        }
    }

    /// The value of `key`, if the map has one.
    pub fn get(&self, key: &str) -> (r: Option<&ParamValue>)
        requires
            self.wf(),
        ensures
            r matches Some(v) ==> lookup(self@, key@) == Some(v@),
            r is None ==> lookup(self@, key@) is None,
    {
        let wanted = key.to_owned();
        let mut i: usize = 0;
        while i < self.entries.len()
            invariant
                wanted@ == key@,
                self.wf(),
                i <= self@.len(),
                self.entries@.len() == self@.len(),
                forall|j: int| 0 <= j < i ==> (#[trigger] self@[j]).0 != key@,
            decreases self@.len() - i,
        {
            if self.entries[i].0 == wanted {
                proof {
                    lemma_lookup_sorted(self@, key@, i as int);
                }
                return Some(&self.entries[i].1);
            }
            i += 1;
        }
        proof {
            lemma_lookup_absent(self@, key@);
        }
        None
    }
}

/// The name of the mandatory iteration budget.
pub open spec fn iterations_key() -> Seq<char> {
    seq!['n', 'u', 'm', '_', 'i', 't', 'e', 'r', 'a', 't', 'i', 'o', 'n', 's']
}

/// The JSON text of a string: quoted, with the characters that JSON requires escaped.
pub uninterp spec fn json_string_text(s: Seq<char>) -> Seq<char>;

/// Relies on serde_json's `Display` for `Value::String`, which writes the JSON text of
/// the string; that text depends on the characters alone.
#[verifier::external_body]
fn quote_json(s: &String) -> (r: String)
    ensures
        r@ == json_string_text(s@),
{
    serde_json::Value::String(s.clone()).to_string()
}

/// The decimal digit `d`.
pub open spec fn digit_char(d: nat) -> char {
    seq!['0', '1', '2', '3', '4', '5', '6', '7', '8', '9'][d as int]
}

/// The decimal text of a natural number, without leading zeros.
pub open spec fn nat_text(n: nat) -> Seq<char>
    decreases n,
{
    if n < 10 {
        seq![digit_char(n)]
    } else {
        nat_text(n / 10) + seq![digit_char(n % 10)]
    }
}

/// The decimal text of an integer, with a leading `-` when it is negative.
pub open spec fn int_text(i: int) -> Seq<char> {
    if i < 0 {
        seq!['-'] + nat_text((-i) as nat)
    } else {
        nat_text(i as nat)
    }
}

/// The texts `items`, with `sep` between each two of them.
pub open spec fn join(items: Seq<Seq<char>>, sep: char) -> Seq<char>
    decreases items.len(),
{
    if items.len() == 0 {
        Seq::empty()
    } else if items.len() == 1 {
        items[0]
    } else {
        join(items.drop_last(), sep) + seq![sep] + items.last()
    }
}

/// How a value is written in the configuration string.
pub open spec fn value_text(v: ParamView) -> Seq<char> {
    match v {
        ParamView::Int(i) => int_text(i as int),
        ParamView::Bool(b) => if b {
            seq!['t', 'r', 'u', 'e']
        } else {
            seq!['f', 'a', 'l', 's', 'e']
        },
        ParamView::Str(t) => json_string_text(t),
        ParamView::Raw(t) => t,
        ParamView::List(items) => seq!['"'] + join(items, ',') + seq!['"'],
    }
}

/// One entry of the configuration string: `key=value`.
pub open spec fn entry_text(e: (Seq<char>, ParamView)) -> Seq<char> {
    e.0 + seq!['='] + value_text(e.1)
}

/// The configuration string of a parameter map: its entries in order, separated by spaces.
pub open spec fn params_text(entries: Seq<(Seq<char>, ParamView)>) -> Seq<char> {
    join(entry_texts(entries), ' ')
}

/// The `key=value` text of each entry.
pub open spec fn entry_texts(entries: Seq<(Seq<char>, ParamView)>) -> Seq<Seq<char>> {
    entries.map_values(|e: (Seq<char>, ParamView)| entry_text(e))
}

/// The iteration budget that a parameter map gives: its `num_iterations` entry, which must
/// be an integer, converted to the engine's 32-bit width as `as` converts.
pub open spec fn budget_of(entries: Seq<(Seq<char>, ParamView)>) -> Option<i32> {
    match lookup(entries, iterations_key()) {
        Some(ParamView::Int(n)) => Some(n as i32),
        _ => None,
    }
}

/// `t` occurs in `s` starting at `at`.
pub open spec fn occurs_at(s: Seq<char>, t: Seq<char>, at: int) -> bool {
    0 <= at && at + t.len() <= s.len() && s.subrange(at, at + t.len()) == t
}

fn digit_text(d: u64) -> (r: String)
    requires
        d < 10,
    ensures
        r@ == seq![digit_char(d as nat)],
{
    proof {
        reveal_strlit("0");
        reveal_strlit("1");
        reveal_strlit("2");
        reveal_strlit("3");
        reveal_strlit("4");
        reveal_strlit("5");
        reveal_strlit("6");
        reveal_strlit("7");
        reveal_strlit("8");
        reveal_strlit("9");
    }
    let t = if d == 0 {
        "0"
    } else if d == 1 {
        "1"
    } else if d == 2 {
        "2"
    } else if d == 3 {
        "3"
    } else if d == 4 {
        "4"
    } else if d == 5 {
        "5"
    } else if d == 6 {
        "6"
    } else if d == 7 {
        "7"
    } else if d == 8 {
        "8"
    } else {
        "9"
    };
    let r = String::from_str(t);
    assert(r@ =~= seq![digit_char(d as nat)]);
    r
}

/// The decimal text of `n`.
pub fn nat_to_text(n: u64) -> (r: String)
    ensures
        r@ == nat_text(n as nat),
    decreases n,
{
    if n < 10 {
        digit_text(n)
    } else {
        let mut s = nat_to_text(n / 10);
        let d = digit_text(n % 10);
        s.append(d.as_str());
        s
    }
}

/// The decimal text of `i`.
pub fn int_to_text(i: i64) -> (r: String)
    ensures
        r@ == int_text(i as int),
{
    if i < 0 {
        let magnitude: u64 = ((-(i + 1)) as u64) + 1;
        let mut s = String::from_str("-");
        proof {
            reveal_strlit("-");
        }
        let digits = nat_to_text(magnitude);
        s.append(digits.as_str());
        assert(s@ =~= seq!['-'] + nat_text((-i) as nat));
        s
    } else {
        nat_to_text(i as u64)
    }
}

/// The items of a list value joined by commas.
fn join_list(items: &Vec<String>) -> (r: String)
    ensures
        r@ == join(items@.map_values(|t: String| t@), ','),
{
    let ghost all = items@.map_values(|t: String| t@);
    let mut out = String::new();
    let mut i: usize = 0;
    proof {
        assert(all.take(0) =~= Seq::<Seq<char>>::empty());
    }
    while i < items.len()
        invariant
            i <= items@.len(),
            all == items@.map_values(|t: String| t@),
            out@ == join(all.take(i as int), ','),
        decreases items@.len() - i,
    {
        proof {
            assert(all.take(i + 1).drop_last() =~= all.take(i as int));
        }
        if i > 0 {
            out.append(",");
            proof {
                reveal_strlit(",");
            }
        }
        out.append(items[i].as_str());
        proof {
            if i == 0 {
                assert(out@ =~= all.take(1)[0]);
            } else {
                assert(out@ =~= join(all.take(i as int), ',') + seq![','] + all.take(i + 1).last());
            }
        }
        i += 1;
    }
    proof {
        assert(all.take(i as int) =~= all);
    }
    out
}

/// How `v` is written in the configuration string.
pub fn render_value(v: &ParamValue) -> (r: String)
    ensures
        r@ == value_text(v@),
{
    match v {
        ParamValue::Int(i) => int_to_text(*i),
        ParamValue::Bool(b) => {
            proof {
                reveal_strlit("true");
                reveal_strlit("false");
            }
            let r = if *b {
                String::from_str("true")
            } else {
                String::from_str("false")
            };
            assert(r@ =~= value_text(v@));
            r
        },
        ParamValue::Str(t) => quote_json(t),
        ParamValue::Raw(t) => t.clone(),
        ParamValue::List(items) => {
            proof {
                reveal_strlit("\"");
            }
            let mut r = String::from_str("\"");
            let joined = join_list(items);
            r.append(joined.as_str());
            r.append("\"");
            assert(r@ =~= value_text(v@));
            r
        },
    }
}

impl Params {
    /// The configuration string of the map: `key=value` for each entry in key order,
    /// separated by single spaces.
    pub fn to_config_string(&self) -> (r: String)
        ensures
            r@ == params_text(self@),
    {
        let ghost all = entry_texts(self@);
        let mut out = String::new();
        let mut i: usize = 0;
        proof {
            assert(all.take(0) =~= Seq::<Seq<char>>::empty());
        }
        while i < self.entries.len()
            invariant
                i <= self@.len(),
                self.entries@.len() == self@.len(),
                all == entry_texts(self@),
                out@ == join(all.take(i as int), ' '),
            decreases self@.len() - i,
        {
            proof {
                assert(all.take(i + 1).drop_last() =~= all.take(i as int));
                reveal_strlit(" ");
                reveal_strlit("=");
            }
            if i > 0 {
                out.append(" ");
            }
            let entry = &self.entries[i];
            out.append(entry.0.as_str());
            out.append("=");
            let value = render_value(&entry.1);
            out.append(value.as_str());
            proof {
                assert(all[i as int] == entry_text(self@[i as int]));
                if i == 0 {
                    assert(out@ =~= all.take(1)[0]);
                } else {
                    assert(out@ =~= join(all.take(i as int), ' ') + seq![' '] + all.take(i + 1).last());
                }
            }
            i += 1;
        }
        proof {
            assert(all.take(i as int) =~= all);
        }
        out
    }
}

/// Serialises a parameter map into the configuration string of the native engine; a
/// `Configuration` error when the map has no iteration budget.
pub fn parse_params(params: &Params) -> (r: Result<String, LgbmError>)
    requires
        params.wf(),
    ensures
        r is Ok <==> lookup(params@, iterations_key()) is Some,
        r matches Ok(s) ==> s@ == params_text(params@),
        r matches Err(e) ==> e.kind == ErrorKind::Configuration,
{
    let key = "num_iterations";
    proof {
        reveal_strlit("num_iterations");
        assert(key@ =~= iterations_key());
    }
    if params.get(key).is_none() {
        return Err(LgbmError::new(ErrorKind::Configuration, String::from_str("Num Iterations not specified.")));
    }
    Ok(params.to_config_string())
}

/// The iteration budget of a parameter map; a `Configuration` error when it is missing
/// or not an integer.
pub fn num_iterations(params: &Params) -> (r: Result<i32, LgbmError>)
    requires
        params.wf(),
    ensures
        r is Ok <==> budget_of(params@) is Some,
        r matches Ok(n) ==> budget_of(params@) == Some(n),
        r matches Err(e) ==> e.kind == ErrorKind::Configuration,
{
    let key = "num_iterations";
    proof {
        reveal_strlit("num_iterations");
        assert(key@ =~= iterations_key());
    }
    match params.get(key) {
        None => Err(LgbmError::new(ErrorKind::Configuration, String::from_str("Num iterations in params missing."))),
        Some(ParamValue::Int(n)) => Ok(*n as i32),
        Some(_) => Err(LgbmError::new(ErrorKind::Configuration, String::from_str("Invalid Value for num iterations."))),
    }
}

proof fn lemma_join_contains(items: Seq<Seq<char>>, sep: char, i: int)
    requires
        0 <= i < items.len(),
    ensures
        exists|at: int| occurs_at(join(items, sep), items[i], at),
    decreases items.len(),
{
    let s = join(items, sep);
    if items.len() == 1 {
        assert(s.subrange(0, items[0].len() as int) =~= items[0]);
        assert(occurs_at(s, items[i], 0));
    } else if i == items.len() - 1 {
        let at = join(items.drop_last(), sep).len() as int + 1;
        assert(s.subrange(at, at + items[i].len()) =~= items[i]);
        assert(occurs_at(s, items[i], at));
    } else {
        lemma_join_contains(items.drop_last(), sep, i);
        let at = choose|at: int| occurs_at(join(items.drop_last(), sep), items.drop_last()[i], at);
        assert(s.subrange(at, at + items[i].len()) =~= join(items.drop_last(), sep).subrange(
            at,
            at + items[i].len(),
        ));
        assert(occurs_at(s, items[i], at));
    }
}

/// Every entry of a parameter map appears in its configuration string as `key=value`,
/// and a list value is written as one quoted token of its items joined by commas.
pub proof fn lemma_every_entry_rendered(entries: Seq<(Seq<char>, ParamView)>, i: int)
    requires
        0 <= i < entries.len(),
    ensures
        exists|at: int| occurs_at(params_text(entries), entry_text(entries[i]), at),
        entries[i].1 matches ParamView::List(items) ==> entry_text(entries[i]) == entries[i].0
            + seq!['=', '"'] + join(items, ',') + seq!['"'],
{
    let all = entry_texts(entries);
    assert(all[i] == entry_text(entries[i]));
    lemma_join_contains(all, ' ', i);
    let at = choose|at: int| occurs_at(join(all, ' '), all[i], at);
    assert(occurs_at(params_text(entries), entry_text(entries[i]), at));
    if let ParamView::List(items) = entries[i].1 {
        assert(entry_text(entries[i]) =~= entries[i].0 + seq!['=', '"'] + join(items, ',') + seq!['"']);
    }
}

} // verus!
