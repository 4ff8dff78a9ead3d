//! The listing of a loaded configuration: sorted by key, with what looks
//! like a secret masked.

use crate::encryption::{begins_with, starts_with_chars};
use crate::text::{decimal, pair_texts, push_decimal, texts, to_chars};
use vstd::prelude::*;

verus! {

/// The lower-case form of a text, as `str::to_lowercase` of the standard
/// library gives it.
pub uninterp spec fn lowercase(text: Seq<char>) -> Seq<char>;

/// `str::to_lowercase`: the lower-case form of the text, which depends on
/// the text alone and which [`lowercase`] names.
#[verifier::external_body]
fn to_lowercase(text: &str) -> (out: String)
    ensures
        out@ == lowercase(text@),
{
    text.to_lowercase()
}

/// Whether `needle` occurs in `text` at position `at`.
pub open spec fn occurs_at(text: Seq<char>, needle: Seq<char>, at: int) -> bool {
    0 <= at && at + needle.len() <= text.len() && text.subrange(at, at + needle.len()) == needle
}

/// Whether `needle` occurs in `text`.
pub open spec fn contains_text(text: Seq<char>, needle: Seq<char>) -> bool {
    exists|at: int| occurs_at(text, needle, at)
}

/// Whether `needle` occurs in `text`.
pub fn contains_chars(text: &Vec<char>, needle: &Vec<char>) -> (out: bool)
    ensures
        out == contains_text(text@, needle@),
{
    if needle.len() > text.len() {
        assert forall|at: int| !occurs_at(text@, needle@, at) by {}
        return false;
    }
    let last: usize = text.len() - needle.len();
    let mut at: usize = 0;
    while at <= last
        invariant
            needle.len() <= text.len(),
            last == text.len() - needle.len(),
            at <= last + 1,
            forall|earlier: int| 0 <= earlier < at ==> !occurs_at(text@, needle@, earlier),
        decreases last + 1 - at,
    {
        let mut i: usize = 0;
        while i < needle.len() && text[at + i] == needle[i]
            invariant
                at <= last,
                last == text.len() - needle.len(),
                i <= needle.len(),
                forall|j: int| 0 <= j < i ==> text@[at + j] == needle@[j],
            decreases needle.len() - i,
        {
            i += 1;
        }
        if i == needle.len() {
            assert(text@.subrange(at as int, at + needle@.len()) =~= needle@);
            assert(occurs_at(text@, needle@, at as int));
            return true;
        }
        proof {
            assert(text@.subrange(at as int, at + needle@.len())[i as int] == text@[at + i]);
        }
        at += 1;
    }
    assert forall|any: int| !occurs_at(text@, needle@, any) by {}
    false
}

/// Whether an entry looks like a secret: its key, in lower case, mentions
/// `password`, `secret` or `key`, or its value is marked as encrypted.
pub open spec fn is_sensitive(key: Seq<char>, value: Seq<char>) -> bool {
    ||| contains_text(lowercase(key), "password"@)
    ||| contains_text(lowercase(key), "secret"@)
    ||| contains_text(lowercase(key), "key"@)
    ||| begins_with(value, "{cipher}"@)
}

/// The value as the listing shows it.
pub open spec fn shown(key: Seq<char>, value: Seq<char>) -> Seq<char> {
    if is_sensitive(key, value) {
        "***MASKED***"@
    } else {
        value
    }
}

/// The value of an entry as the listing shows it: masked where the entry
/// looks like a secret.
pub fn mask_value(key: &str, value: &str) -> (out: String)
    ensures
        out@ == shown(key@, value@),
{
    let lower = to_chars(to_lowercase(key).as_str());
    if contains_chars(&lower, &to_chars("password")) || contains_chars(&lower, &to_chars("secret"))
        || contains_chars(&lower, &to_chars("key")) || starts_with_chars(
        &to_chars(value),
        &to_chars("{cipher}"),
    ) {
        "***MASKED***".to_owned()
    } else {
        value.to_owned()
    }
}

/// `n` times the character `c`.
pub open spec fn repeated(c: char, n: nat) -> Seq<char> {
    Seq::new(n, |i: int| c)
}

/// `text` with blanks after it up to `width` characters.
pub open spec fn padded(text: Seq<char>, width: nat) -> Seq<char> {
    if text.len() >= width {
        text
    } else {
        text + repeated(' ', (width - text.len()) as nat)
    }
}

fn push_repeated(out: &mut String, c: char, n: usize)
    ensures
        final(out)@ == old(out)@ + repeated(c, n as nat),
{
    let mut i: usize = 0;
    while i < n
        invariant
            i <= n,
            out@ == old(out)@ + repeated(c, i as nat),
        decreases n - i,
    {
        out.push(c);
        assert(out@ =~= old(out)@ + repeated(c, (i + 1) as nat));
        i += 1;
    }
}

/// The width that keys are padded to.
pub const KEY_WIDTH: usize = 30;

/// The width of the rule above and below the entries.
pub const RULE_WIDTH: usize = 50;

/// The line of the listing for one entry.
pub open spec fn entry_line(key: Seq<char>, value: Seq<char>) -> Seq<char> {
    padded(key, KEY_WIDTH as nat) + " = "@ + shown(key, value)
}

/// The line of the listing for one entry: the key, padded to thirty
/// characters, then ` = ` and the value or its mask.
pub fn format_entry(key: &str, value: &str) -> (out: String)
    ensures
        out@ == entry_line(key@, value@),
{
    let mut out = key.to_owned();
    let length = key.unicode_len();
    if length < KEY_WIDTH {
        push_repeated(&mut out, ' ', KEY_WIDTH - length);
    }
    out.append(" = ");
    out.append(mask_value(key, value).as_str());
    assert(out@ =~= entry_line(key@, value@));
    out
}

/// Whether `a` comes no later than `b` in the order of strings: character
/// by character, a prefix before what extends it.
pub open spec fn ordered(a: Seq<char>, b: Seq<char>) -> bool
    decreases a.len(),
{
    if a.len() == 0 {
        true
    } else if b.len() == 0 {
        false
    } else if a[0] != b[0] {
        (a[0] as u32) < (b[0] as u32)
    } else {
        ordered(a.drop_first(), b.drop_first())
    }
}

pub proof fn lemma_ordered_total(a: Seq<char>, b: Seq<char>)
    ensures
        ordered(a, b) || ordered(b, a),
    decreases a.len(),
{
    if a.len() > 0 && b.len() > 0 {
        if a[0] == b[0] {
            lemma_ordered_total(a.drop_first(), b.drop_first());
        } else {
            vstd::utf8::char_u32_cast(a[0], a[0] as u32);
            vstd::utf8::char_u32_cast(b[0], b[0] as u32);
        }
    }
}

pub proof fn lemma_ordered_transitive(a: Seq<char>, b: Seq<char>, c: Seq<char>)
    requires
        ordered(a, b),
        ordered(b, c),
    ensures
        ordered(a, c),
    decreases a.len(),
{
    if a.len() > 0 && b.len() > 0 && c.len() > 0 && a[0] == b[0] && b[0] == c[0] {
        lemma_ordered_transitive(a.drop_first(), b.drop_first(), c.drop_first());
    }
}

/// Whether `a` comes no later than `b` in the order of strings.
pub fn compare_texts(a: &Vec<char>, b: &Vec<char>) -> (out: bool)
    ensures
        out == ordered(a@, b@),
{
    let mut i: usize = 0;
    proof {
        assert(a@.skip(0) =~= a@);
        assert(b@.skip(0) =~= b@);
    }
    while i < a.len() && i < b.len() && a[i] == b[i]
        invariant
            i <= a.len(),
            i <= b.len(),
            ordered(a@, b@) == ordered(a@.skip(i as int), b@.skip(i as int)),
        decreases a.len() - i,
    {
        proof {
            assert(a@.skip(i as int).drop_first() =~= a@.skip(i + 1));
            assert(b@.skip(i as int).drop_first() =~= b@.skip(i + 1));
        }
        i += 1;
    }
    if i == a.len() {
        true
    } else if i == b.len() {
        false
    } else {
        (a[i] as u32) < (b[i] as u32)
    }
}

/// Whether the keys of a list of pairs stand in the order of strings.
pub open spec fn sorted_by_key(pairs: Seq<(Seq<char>, Seq<char>)>) -> bool {
    forall|i: int, j: int| 0 <= i < j < pairs.len() ==> ordered(pairs[i].0, pairs[j].0)
}

/// The entries sorted by key. Entries with the same key keep their order.
pub fn sort_entries(entries: &Vec<(String, String)>) -> (out: Vec<(String, String)>)
    ensures
        sorted_by_key(pair_texts(out@)),
        pair_texts(out@).to_multiset() == pair_texts(entries@).to_multiset(),
{
    let mut out: Vec<(String, String)> = Vec::new();
    let mut n: usize = 0;
    assert(pair_texts(out@) =~= pair_texts(entries@).take(0));
    while n < entries.len()
        invariant
            n <= entries.len(),
            out@.len() == n,
            sorted_by_key(pair_texts(out@)),
            pair_texts(out@).to_multiset() == pair_texts(entries@).take(n as int).to_multiset(),
        decreases entries.len() - n,
    {
        let key = to_chars(entries[n].0.as_str());
        let mut at: usize = 0;
        while at < out.len() && compare_texts(&to_chars(out[at].0.as_str()), &key)
            invariant
                at <= out@.len(),
                key@ == entries@[n as int].0@,
                forall|q: int| 0 <= q < at ==> ordered(out@[q].0@, key@),
            decreases out@.len() - at,
        {
            at += 1;
        }
        let ghost before = pair_texts(out@);
        let ghost entry = (entries@[n as int].0@, entries@[n as int].1@);
        out.insert(at, (entries[n].0.clone(), entries[n].1.clone()));
        proof {
            let after = pair_texts(out@);
            assert(after =~= before.insert(at as int, entry));
            assert(sorted_by_key(after)) by {
                assert forall|i: int, j: int| 0 <= i < j < after.len() implies ordered(
                    after[i].0,
                    after[j].0,
                ) by {
                    if j < at {
                        assert(ordered(before[i].0, before[j].0));
                    } else if j == at {
                        assert(ordered(before[i].0, entry.0));
                    } else if i < at {
                        assert(ordered(before[i].0, before[j - 1].0));
                    } else if i == at {
                        lemma_ordered_total(before[at as int].0, entry.0);
                        if j - 1 > at {
                            assert(ordered(before[at as int].0, before[j - 1].0));
                            lemma_ordered_transitive(entry.0, before[at as int].0, before[j - 1].0);
                        }
                    } else {
                        assert(ordered(before[i - 1].0, before[j - 1].0));
                    }
                }
            }
            assert(after.remove(at as int) =~= before);
            vstd::seq_lib::to_multiset_remove(after, at as int);
            after.to_multiset_ensures();
            assert(after.to_multiset() =~= before.to_multiset().insert(entry));
            let taken = pair_texts(entries@).take(n + 1);
            assert(taken =~= pair_texts(entries@).take(n as int).push(entry));
            vstd::seq_lib::to_multiset_build(pair_texts(entries@).take(n as int), entry);
        }
        n += 1;
    }
    assert(pair_texts(entries@).take(entries@.len() as int) =~= pair_texts(entries@));
    out
}

/// The lines for the first `n` entries.
pub open spec fn entry_lines(pairs: Seq<(Seq<char>, Seq<char>)>, n: nat) -> Seq<Seq<char>>
    decreases n,
{
    if n == 0 || n > pairs.len() {
        Seq::empty()
    } else {
        entry_lines(pairs, (n - 1) as nat).push(entry_line(pairs[n - 1].0, pairs[n - 1].1))
    }
}

/// The listing of entries in the order given: a heading and a rule; then,
/// where there is no entry, a line that says so; else a line per entry, a
/// rule and the number of entries.
pub open spec fn listing(pairs: Seq<(Seq<char>, Seq<char>)>) -> Seq<Seq<char>> {
    let head = seq!["\n\u{1F4CB} All loaded configurations:"@, repeated('-', RULE_WIDTH as nat)];
    if pairs.len() == 0 {
        head.push("No configurations loaded."@)
    } else {
        (head + entry_lines(pairs, pairs.len())).push(repeated('-', RULE_WIDTH as nat)).push(
            "Total configurations: "@ + decimal(pairs.len()) + seq!['\n'],
        )
    }
}

/// The lines of the listing of `entries`, in the order given.
pub fn list_entries(entries: &Vec<(String, String)>) -> (out: Vec<String>)
    ensures
        texts(out@) == listing(pair_texts(entries@)),
{
    let ghost pairs = pair_texts(entries@);
    let mut out: Vec<String> = Vec::new();
    out.push("\n\u{1F4CB} All loaded configurations:".to_owned());
    let mut rule = String::new();
    push_repeated(&mut rule, '-', RULE_WIDTH);
    assert(rule@ =~= repeated('-', RULE_WIDTH as nat));
    out.push(rule.clone());
    let ghost head = seq![
        "\n\u{1F4CB} All loaded configurations:"@,
        repeated('-', RULE_WIDTH as nat),
    ];
    assert(texts(out@) =~= head);
    if entries.len() == 0 {
        out.push("No configurations loaded.".to_owned());
        assert(texts(out@) =~= head.push("No configurations loaded."@));
        return out;
    }
    let mut i: usize = 0;
    while i < entries.len()
        invariant
            i <= entries.len(),
            pairs == pair_texts(entries@),
            texts(out@) == head + entry_lines(pairs, i as nat),
        decreases entries.len() - i,
    {
        let ghost before = texts(out@);
        let line = format_entry(entries[i].0.as_str(), entries[i].1.as_str());
        let ghost text = line@;
        out.push(line);
        proof {
            assert(texts(out@) =~= before.push(text));
            assert(pairs[i as int] == (entries@[i as int].0@, entries@[i as int].1@));
            assert(head + entry_lines(pairs, (i + 1) as nat) =~= (head + entry_lines(
                pairs,
                i as nat,
            )).push(text));
        }
        i += 1;
    }
    let ghost before = texts(out@);
    out.push(rule);
    let mut total = "Total configurations: ".to_owned();
    push_decimal(&mut total, entries.len() as u64);
    total.push('\n');
    let ghost total_text = total@;
    out.push(total);
    proof {
        assert(pairs.len() == entries@.len());
        assert(total_text =~= "Total configurations: "@ + decimal(pairs.len()) + seq!['\n']);
        assert(texts(out@) =~= before.push(repeated('-', RULE_WIDTH as nat)).push(
            total_text,
        ));
        assert(texts(out@) =~= listing(pairs));
    }
    out
}

/// The lines of the listing of `entries`, sorted by key.
pub fn config_report(entries: &Vec<(String, String)>) -> (out: Vec<String>)
    ensures
        exists|order: Seq<(Seq<char>, Seq<char>)>|
            {
                &&& sorted_by_key(order)
                &&& order.to_multiset() == pair_texts(entries@).to_multiset()
                &&& #[trigger] listing(order) == texts(out@)
            },
{
    let sorted = sort_entries(entries);
    let out = list_entries(&sorted);
    proof {
        let order = pair_texts(sorted@);
        assert(sorted_by_key(order) && order.to_multiset() == pair_texts(entries@).to_multiset()
            && listing(order) == texts(out@));
    }
    out
}

} // verus!
