//! Byte-wise text identity and order, as `String` compares.

use vstd::prelude::*;
use vstd::utf8::encode_utf8;

verus! {

/// The UTF-8 bytes of a string.
pub open spec fn text_bytes(text: Seq<char>) -> Seq<u8> {
    encode_utf8(text)
}

/// Lexicographic order of byte strings, comparing from position `i`.
pub open spec fn bytes_lt_from(a: Seq<u8>, b: Seq<u8>, i: int) -> bool
    decreases a.len() - i,
{
    if i < 0 {
        false
    } else if i >= a.len() {
        i < b.len()
    } else if i >= b.len() {
        false
    } else if a[i] != b[i] {
        a[i] < b[i]
    } else {
        bytes_lt_from(a, b, i + 1)
    }
}

/// Lexicographic order of byte strings (the order of `String`).
pub open spec fn bytes_lt(a: Seq<u8>, b: Seq<u8>) -> bool {
    bytes_lt_from(a, b, 0)
}

/// Texts strictly increasing in byte order, hence pairwise distinct.
pub open spec fn strictly_sorted(keys: Seq<Seq<u8>>) -> bool {
    forall|i: int, j: int| 0 <= i < j < keys.len() ==> bytes_lt(#[trigger] keys[i], #[trigger] keys[j])
}

/// Byte keys of a sequence of strings.
pub open spec fn string_keys(strings: Seq<String>) -> Seq<Seq<u8>> {
    strings.map_values(|s: String| text_bytes(s@))
}

proof fn lemma_bytes_lt_irreflexive(a: Seq<u8>, i: int)
    requires
        0 <= i,
    ensures
        !bytes_lt_from(a, a, i),
    decreases a.len() - i,
{
    if i < a.len() {
        lemma_bytes_lt_irreflexive(a, i + 1);
    }
}

proof fn lemma_bytes_lt_asymmetric(a: Seq<u8>, b: Seq<u8>, i: int)
    requires
        0 <= i,
    ensures
        bytes_lt_from(a, b, i) ==> !bytes_lt_from(b, a, i),
    decreases a.len() - i,
{
    if i < a.len() && i < b.len() && a[i] == b[i] {
        lemma_bytes_lt_asymmetric(a, b, i + 1);
    }
}

proof fn lemma_bytes_lt_transitive(a: Seq<u8>, b: Seq<u8>, c: Seq<u8>, i: int)
    requires
        0 <= i,
    ensures
        bytes_lt_from(a, b, i) && bytes_lt_from(b, c, i) ==> bytes_lt_from(a, c, i),
    decreases a.len() - i,
{
    if i < a.len() && i < b.len() && i < c.len() && a[i] == b[i] && b[i] == c[i] {
        lemma_bytes_lt_transitive(a, b, c, i + 1);
    }
}

proof fn lemma_bytes_equal_from(a: Seq<u8>, b: Seq<u8>, i: int)
    requires
        0 <= i <= a.len(),
        i <= b.len(),
        forall|k: int| 0 <= k < i ==> a[k] == b[k],
        !bytes_lt_from(a, b, i),
        !bytes_lt_from(b, a, i),
    ensures
        a == b,
    decreases a.len() - i,
{
    if i < a.len() && i < b.len() {
        lemma_bytes_equal_from(a, b, i + 1);
    } else {
        assert(a =~= b);
    }
}

/// `bytes_lt` is a strict total order.
pub proof fn lemma_bytes_lt_order(a: Seq<u8>, b: Seq<u8>, c: Seq<u8>)
    ensures
        !bytes_lt(a, a),
        bytes_lt(a, b) ==> !bytes_lt(b, a),
        bytes_lt(a, b) && bytes_lt(b, c) ==> bytes_lt(a, c),
        a != b ==> bytes_lt(a, b) || bytes_lt(b, a),
{
    lemma_bytes_lt_irreflexive(a, 0);
    lemma_bytes_lt_asymmetric(a, b, 0);
    lemma_bytes_lt_transitive(a, b, c, 0);
    if a != b && !bytes_lt(a, b) && !bytes_lt(b, a) {
        lemma_bytes_equal_from(a, b, 0);
    }
}

/// Byte-wise `a < b`.
pub fn text_less(a: &str, b: &str) -> (less: bool)
    ensures
        less == bytes_lt(text_bytes(a@), text_bytes(b@)),
{
    let x = a.as_bytes();
    let y = b.as_bytes();
    let ghost xs = text_bytes(a@);
    let ghost ys = text_bytes(b@);
    let mut i: usize = 0;
    while i < x.len() && i < y.len()
        invariant
            x@ == xs,
            y@ == ys,
            xs == text_bytes(a@),
            ys == text_bytes(b@),
            i <= x@.len(),
            i <= y@.len(),
            bytes_lt_from(xs, ys, i as int) == bytes_lt(xs, ys),
        decreases x.len() - i,
    {
        let xi = x[i];
        let yi = y[i];
        if xi != yi {
            assert(bytes_lt_from(xs, ys, i as int) == (xi < yi));
            return xi < yi;
        }
        i = i + 1;
    }
    i == x.len() && i < y.len()
}

/// Byte-wise `a == b`.
pub fn text_equal(a: &str, b: &str) -> (equal: bool)
    ensures
        equal == (text_bytes(a@) == text_bytes(b@)),
{
    proof {
        lemma_bytes_lt_order(text_bytes(a@), text_bytes(b@), text_bytes(b@));
    }
    !text_less(a, b) && !text_less(b, a)
}

/// Position of `key` among strictly sorted `keys`: the first index whose key
/// is not below it, and whether that key equals it.
pub fn find_slot(keys: &Vec<String>, key: &str) -> (slot: (usize, bool))
    requires
        strictly_sorted(string_keys(keys@)),
    ensures
        slot.0 <= keys@.len(),
        forall|k: int| 0 <= k < slot.0 ==> bytes_lt(#[trigger] string_keys(keys@)[k], text_bytes(key@)),
        slot.1 ==> slot.0 < keys@.len() && string_keys(keys@)[slot.0 as int] == text_bytes(key@),
        !slot.1 ==> slot.0 == keys@.len() || bytes_lt(text_bytes(key@), string_keys(keys@)[slot.0 as int]),
        slot.1 == exists|k: int| 0 <= k < keys@.len() && #[trigger] string_keys(keys@)[k] == text_bytes(key@),
{
    let ghost ks = string_keys(keys@);
    let ghost kb = text_bytes(key@);
    let mut i: usize = 0;
    while i < keys.len()
        invariant
            ks == string_keys(keys@),
            kb == text_bytes(key@),
            strictly_sorted(ks),
            i <= keys@.len(),
            forall|k: int| 0 <= k < i ==> bytes_lt(#[trigger] ks[k], kb),
        decreases keys.len() - i,
    {
        assert(ks[i as int] == text_bytes(keys@[i as int]@));
        if !text_less(keys[i].as_str(), key) {
            let found = text_equal(keys[i].as_str(), key);
            proof {
                lemma_bytes_lt_order(kb, ks[i as int], kb);
                assert forall|k: int| 0 <= k < keys@.len() && #[trigger] ks[k] == kb implies k == i by {
                    if k < i {
                        lemma_bytes_lt_order(kb, kb, kb);
                    } else if k > i {
                        assert(bytes_lt(ks[i as int], ks[k]));
                        lemma_bytes_lt_order(ks[i as int], kb, kb);
                    }
                }
            }
            return (i, found);
        }
        i = i + 1;
    }
    proof {
        assert forall|k: int| 0 <= k < keys@.len() implies #[trigger] ks[k] != kb by {
            lemma_bytes_lt_order(kb, kb, kb);
        }
    }
    (i, false)
}

/// Strictly sorted keys are pairwise distinct.
pub proof fn lemma_sorted_unique(keys: Seq<Seq<u8>>, i: int, j: int)
    requires
        strictly_sorted(keys),
        0 <= i < keys.len(),
        0 <= j < keys.len(),
        keys[i] == keys[j],
    ensures
        i == j,
{
    if i < j {
        assert(bytes_lt(keys[i], keys[j]));
        lemma_bytes_lt_order(keys[i], keys[i], keys[i]);
    } else if j < i {
        assert(bytes_lt(keys[j], keys[i]));
        lemma_bytes_lt_order(keys[i], keys[i], keys[i]);
    }
}

/// Inserting a key at its slot keeps keys strictly sorted.
pub proof fn lemma_insert_sorted(keys: Seq<Seq<u8>>, key: Seq<u8>, index: int)
    requires
        strictly_sorted(keys),
        0 <= index <= keys.len(),
        forall|k: int| 0 <= k < index ==> bytes_lt(#[trigger] keys[k], key),
        index == keys.len() || bytes_lt(key, keys[index]),
    ensures
        strictly_sorted(keys.insert(index, key)),
{
    let inserted = keys.insert(index, key);
    assert forall|i: int, j: int| 0 <= i < j < inserted.len() implies bytes_lt(
        #[trigger] inserted[i],
        #[trigger] inserted[j],
    ) by {
        if i < index && j == index {
        } else if i < index && j > index {
            lemma_bytes_lt_order(keys[i], key, keys[index]);
            if j - 1 > index {
                lemma_bytes_lt_order(keys[i], keys[index], keys[j - 1]);
            }
        } else if i == index {
            if j - 1 > index {
                lemma_bytes_lt_order(key, keys[index], keys[j - 1]);
            }
        } else {
        }
    }
}

/// `key` occurs among the first `n` keys.
pub open spec fn key_in(keys: Seq<Seq<u8>>, n: int, key: Seq<u8>) -> bool {
    exists|k: int| 0 <= k < n && #[trigger] keys[k] == key
}

/// The distinct texts of `texts`, in strictly increasing byte order.
pub fn sorted_distinct(texts: &Vec<String>) -> (result: Vec<String>)
    ensures
        strictly_sorted(string_keys(result@)),
        forall|key: Seq<u8>|
            #[trigger] key_in(string_keys(result@), result@.len() as int, key) == key_in(
                string_keys(texts@),
                texts@.len() as int,
                key,
            ),
{
    let mut result: Vec<String> = Vec::new();
    let mut i: usize = 0;
    while i < texts.len()
        invariant
            i <= texts@.len(),
            strictly_sorted(string_keys(result@)),
            forall|key: Seq<u8>|
                #[trigger] key_in(string_keys(result@), result@.len() as int, key) == key_in(
                    string_keys(texts@),
                    i as int,
                    key,
                ),
        decreases texts.len() - i,
    {
        let text = &texts[i];
        let (index, found) = find_slot(&result, text.as_str());
        let ghost before = result@;
        let ghost key = text_bytes(text@);
        let ghost tk = string_keys(texts@);
        assert(tk[i as int] == key);
        if !found {
            proof {
                lemma_insert_sorted(string_keys(before), key, index as int);
            }
            result.insert(index, text.clone());
            assert(string_keys(result@) =~= string_keys(before).insert(index as int, key));
            proof {
                let rk = string_keys(result@);
                let bk = string_keys(before);
                assert forall|q: Seq<u8>|
                    #[trigger] key_in(rk, rk.len() as int, q) == key_in(tk, i + 1, q) by {
                    if key_in(rk, rk.len() as int, q) {
                        let k = choose|k: int| 0 <= k < rk.len() && #[trigger] rk[k] == q;
                        if k < index {
                            assert(bk[k] == q);
                            assert(key_in(bk, bk.len() as int, q));
                        } else if k > index {
                            assert(bk[k - 1] == q);
                            assert(key_in(bk, bk.len() as int, q));
                        }
                    }
                    if key_in(tk, i + 1, q) {
                        let k = choose|k: int| 0 <= k < i + 1 && #[trigger] tk[k] == q;
                        if k < i {
                            assert(key_in(tk, i as int, q));
                            assert(key_in(bk, bk.len() as int, q));
                            let m = choose|m: int| 0 <= m < bk.len() && #[trigger] bk[m] == q;
                            if m < index {
                                assert(rk[m] == q);
                            } else {
                                assert(rk[m + 1] == q);
                            }
                        } else {
                            assert(rk[index as int] == q);
                        }
                    }
                }
            }
        } else {
            proof {
                let bk = string_keys(before);
                assert forall|q: Seq<u8>|
                    #[trigger] key_in(bk, bk.len() as int, q) == key_in(tk, i + 1, q) by {
                    if key_in(tk, i + 1, q) {
                        let k = choose|k: int| 0 <= k < i + 1 && #[trigger] tk[k] == q;
                        if k < i {
                            assert(key_in(tk, i as int, q));
                        } else {
                            assert(bk[index as int] == q);
                        }
                    }
                    if key_in(bk, bk.len() as int, q) {
                        assert(key_in(tk, i as int, q));
                        let k = choose|k: int| 0 <= k < i && #[trigger] tk[k] == q;
                        assert(tk[k] == q);
                    }
                }
            }
        }
        i = i + 1;
    }
    result
}

/// The character of a decimal digit.
pub open spec fn digit_char(digit: nat) -> char {
    (48 + digit) as char
}

/// Decimal notation of a natural number, without sign or leading zeros.
pub open spec fn decimal_text(n: nat) -> Seq<char>
    decreases n,
{
    if n < 10 {
        seq![digit_char(n)]
    } else {
        decimal_text(n / 10) + seq![digit_char(n % 10)]
    }
}

/// The one-character text of a decimal digit.
fn digit_text(digit: u64) -> (text: &'static str)
    requires
        digit < 10,
    ensures
        text@ == seq![digit_char(digit as nat)],
{
    if digit == 0 {
        proof { reveal_strlit("0"); }
        "0"
    } else if digit == 1 {
        proof { reveal_strlit("1"); }
        "1"
    } else if digit == 2 {
        proof { reveal_strlit("2"); }
        "2"
    } else if digit == 3 {
        proof { reveal_strlit("3"); }
        "3"
    } else if digit == 4 {
        proof { reveal_strlit("4"); }
        "4"
    } else if digit == 5 {
        proof { reveal_strlit("5"); }
        "5"
    } else if digit == 6 {
        proof { reveal_strlit("6"); }
        "6"
    } else if digit == 7 {
        proof { reveal_strlit("7"); }
        "7"
    } else if digit == 8 {
        proof { reveal_strlit("8"); }
        "8"
    } else {
        proof { reveal_strlit("9"); }
        "9"
    }
}

/// Decimal notation of `n`, as `Display` writes an unsigned integer.
pub fn decimal(n: u64) -> (text: String)
    ensures
        text@ == decimal_text(n as nat),
    decreases n,
{
    if n < 10 {
        String::from_str(digit_text(n))
    } else {
        let mut text = decimal(n / 10);
        text.append(digit_text(n % 10));
        text
    }
}

} // verus!
