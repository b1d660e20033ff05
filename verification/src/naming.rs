//! Machine names: `<prefix>-<label>-<handle>`, and back.

use vstd::prelude::*;

use crate::text;

verus! {

pub const DEFAULT_PREFIX: &'static str = "ci-orc";

/// The longest handle a machine name carries.
pub const HANDLE_LEN: usize = 24;

/// A character of a job handle that has a place in a hostname.
pub open spec fn carried(c: char) -> bool {
    text::is_lower(c) || text::is_digit(c) || c == '-' || text::is_upper(c)
}

/// The carried characters of a handle, in lower case.
pub open spec fn sieved(handle: Seq<char>) -> Seq<char> {
    handle.filter(|c: char| carried(c)).map_values(|c: char| text::lowered(c))
}

/// A handle as it stands in a machine name: its first carried characters,
/// without hyphens at the end.
pub open spec fn truncated(handle: Seq<char>) -> Seq<char> {
    text::trimmed_end(text::clipped(sieved(handle), HANDLE_LEN as nat), '-')
}

/// What a machine name of this prefix and label begins with.
pub open spec fn head(prefix: Seq<char>, label: Seq<char>) -> Seq<char> {
    prefix + "-"@ + label + "-"@
}

pub open spec fn machine_name_of(prefix: Seq<char>, label: Seq<char>, handle: Seq<char>) -> Seq<
    char,
> {
    head(prefix, label) + truncated(handle)
}

/// `label` is one of the labels that explain `name`, and none of the others is longer.
pub open spec fn explains(
    prefix: Seq<char>,
    name: Seq<char>,
    labels: Seq<Seq<char>>,
    label: Seq<char>,
) -> bool {
    &&& labels.contains(label)
    &&& head(prefix, label).is_prefix_of(name)
    &&& forall|other: Seq<char>| #[trigger]
        labels.contains(other) && head(prefix, other).is_prefix_of(name) ==> other.len()
            <= label.len()
}

/// The longest label that explains `name`, and the handle that follows it.
pub open spec fn split_of(prefix: Seq<char>, name: Seq<char>, labels: Seq<Seq<char>>) -> Option<
    (Seq<char>, Seq<char>),
> {
    if exists|label: Seq<char>| explains(prefix, name, labels, label) {
        let label = choose|label: Seq<char>| explains(prefix, name, labels, label);
        Some((label, name.skip(head(prefix, label).len() as int)))
    } else {
        None
    }
}

/// `name` ends in this handle, whatever label stands before it.
pub open spec fn ends_in(name: Seq<char>, handle: Seq<char>) -> bool {
    ("-"@ + handle).is_suffix_of(name)
}

/// A label of a hostname: lower case letters, digits and hyphens, with no
/// hyphen at either end.
pub open spec fn hostname_label(name: Seq<char>) -> bool {
    &&& name.len() > 0
    &&& name[0] != '-'
    &&& name.last() != '-'
    &&& forall|i: int|
        0 <= i < name.len() ==> text::is_lower(#[trigger] name[i]) || text::is_digit(name[i])
            || name[i] == '-'
}

/// The name of the machine that serves `handle` under `label`.
pub fn machine_name(prefix: &str, label: &str, handle: &str) -> (res: String)
    ensures
        res@ == machine_name_of(prefix@, label@, handle@),
{
    let short = truncated_handle(handle);
    prefix.to_owned().concat("-").concat(label).concat("-").concat(short.as_str())
}

/// The part of a job handle that a machine name carries.
pub fn truncated_handle(handle: &str) -> (res: String)
    ensures
        res@ == truncated(handle@),
{
    let chars = text::chars_of(handle);
    let mut short: Vec<char> = Vec::new();
    let mut i: usize = 0;
    proof {
        reveal(Seq::filter);
        assert(sieved(chars@.take(0)) =~= Seq::<char>::empty());
    }
    while i < chars.len()
        invariant
            i <= chars@.len(),
            short@ == text::clipped(sieved(chars@.take(i as int)), HANDLE_LEN as nat),
        decreases chars@.len() - i,
    {
        let c = chars[i];
        let keep = ('a' <= c && c <= 'z') || ('0' <= c && c <= '9') || c == '-' || ('A' <= c && c
            <= 'Z');
        proof {
            lemma_sieved_step(chars@, i as int);
        }
        if keep && short.len() < HANDLE_LEN {
            short.push(text::lower(c));
        }
        i += 1;
    }
    proof {
        assert(chars@.take(i as int) =~= handle@);
    }
    let whole = text::text_of(&short, 0, short.len());
    proof {
        assert(whole@ =~= short@);
    }
    text::trim_end(whole.as_str(), '-').to_owned()
}

proof fn lemma_sieved_step(handle: Seq<char>, at: int)
    requires
        0 <= at < handle.len(),
    ensures
        sieved(handle.take(at + 1)) == (if carried(handle[at]) {
            sieved(handle.take(at)).push(text::lowered(handle[at]))
        } else {
            sieved(handle.take(at))
        }),
{
    reveal(Seq::filter);
    let longer = handle.take(at + 1);
    assert(longer.drop_last() =~= handle.take(at));
    assert(longer.last() == handle[at]);
    let pred = |c: char| carried(c);
    assert(longer.filter(pred) == (if carried(handle[at]) {
        handle.take(at).filter(pred).push(handle[at])
    } else {
        handle.take(at).filter(pred)
    }));
    if carried(handle[at]) {
        assert(sieved(longer) =~= sieved(handle.take(at)).push(text::lowered(handle[at])));
    }
}

/// The label that explains `name` and the handle behind it. Of several labels
/// that fit, the longest is taken.
pub fn split<'a>(prefix: &str, name: &'a str, labels: &[String]) -> (res: Option<
    (&'a str, &'a str),
>)
    ensures
        match res {
            Some((label, handle)) => split_of(prefix@, name@, text::texts(labels@)) == Some(
                (label@, handle@),
            ),
            None => split_of(prefix@, name@, text::texts(labels@)) is None,
        },
{
    let start: usize = prefix.unicode_len();
    let whole: usize = name.unicode_len();
    let ghost all = text::texts(labels@);
    let mut best: Option<usize> = None;
    let mut i: usize = 0;
    while i < labels.len()
        invariant
            i <= labels@.len(),
            all == text::texts(labels@),
            whole == name@.len(),
            match best {
                Some(at) => at < i && head(prefix@, all[at as int]).is_prefix_of(name@) && forall|
                    j: int,
                |
                    0 <= j < i && head(prefix@, #[trigger] all[j]).is_prefix_of(name@)
                        ==> all[j].len() <= all[at as int].len(),
                None => forall|j: int|
                    0 <= j < i ==> !head(prefix@, #[trigger] all[j]).is_prefix_of(name@),
            },
        decreases labels@.len() - i,
    {
        let label = labels[i].as_str();
        let front = prefix.to_owned().concat("-").concat(label).concat("-");
        proof {
            assert(all[i as int] == label@);
        }
        if text::starts_with(name, front.as_str()) {
            let longer = match best {
                Some(at) => labels[at].as_str().unicode_len() < label.unicode_len(),
                None => true,
            };
            if longer {
                best = Some(i);
            }
        }
        i += 1;
    }
    match best {
        Some(at) => {
            let size: usize = labels[at].as_str().unicode_len();
            proof {
                reveal_strlit("-");
                let label = all[at as int];
                assert(explains(prefix@, name@, all, label)) by {
                    assert forall|other: Seq<char>| #[trigger]
                        all.contains(other) && head(prefix@, other).is_prefix_of(
                            name@,
                        ) implies other.len() <= label.len() by {
                        let j = choose|j: int| 0 <= j < all.len() && all[j] == other;
                        assert(head(prefix@, all[j]).is_prefix_of(name@));
                    }
                }
                lemma_split_is(prefix@, name@, all, label);
                assert(head(prefix@, label).len() == start + size + 2);
                assert(name@.subrange(0, start + size + 2) =~= head(prefix@, label));
                let front = head(prefix@, label);
                assert forall|k: int| 0 <= k < size implies name@[start + 1 + k] == label[k] by {
                    assert(name@.subrange(0, start + size + 2)[start + 1 + k] == front[start + 1
                        + k]);
                }
                assert(name@.subrange(start + 1, start + 1 + size) =~= label);
            }
            let label = name.substring_char(start + 1, start + 1 + size);
            let handle = name.substring_char(start + size + 2, whole);
            proof {
                assert(handle@ =~= name@.skip(head(prefix@, all[at as int]).len() as int));
            }
            Some((label, handle))
        },
        None => {
            proof {
                if exists|label: Seq<char>| explains(prefix@, name@, all, label) {
                    let label = choose|label: Seq<char>| explains(prefix@, name@, all, label);
                    let j = choose|j: int| 0 <= j < all.len() && all[j] == label;
                    assert(!head(prefix@, all[j]).is_prefix_of(name@));
                }
            }
            None
        },
    }
}

/// Whether `name` ends in the handle, whatever label stands before it.
pub fn serves(name: &str, handle: &str) -> (res: bool)
    ensures
        res == ends_in(name@, handle@),
{
    let tail = "-".to_owned().concat(handle);
    text::ends_with(name, tail.as_str())
}

/// Whether `name` is a label of a hostname.
pub fn is_hostname_label(name: &str) -> (res: bool)
    ensures
        res == hostname_label(name@),
{
    let chars = text::chars_of(name);
    let size: usize = chars.len();
    if size == 0 || chars[0] == '-' || chars[size - 1] == '-' {
        return false;
    }
    let mut i: usize = 0;
    while i < size
        invariant
            i <= size == chars@.len(),
            chars@ == name@,
            forall|j: int|
                0 <= j < i ==> text::is_lower(#[trigger] name@[j]) || text::is_digit(name@[j])
                    || name@[j] == '-',
        decreases size - i,
    {
        let c = chars[i];
        if !(('a' <= c && c <= 'z') || ('0' <= c && c <= '9') || c == '-') {
            return false;
        }
        i += 1;
    }
    true
}

proof fn lemma_same_length_heads(
    prefix: Seq<char>,
    name: Seq<char>,
    a: Seq<char>,
    b: Seq<char>,
)
    requires
        head(prefix, a).is_prefix_of(name),
        head(prefix, b).is_prefix_of(name),
        a.len() <= b.len(),
    ensures
        a.is_prefix_of(b),
{
    reveal_strlit("-");
    assert forall|i: int| 0 <= i < a.len() implies a[i] == b[i] by {
        assert(head(prefix, a)[prefix.len() + 1 + i] == a[i]);
        assert(head(prefix, b)[prefix.len() + 1 + i] == b[i]);
        assert(name[prefix.len() + 1 + i] == head(prefix, a)[prefix.len() + 1 + i]);
        assert(name[prefix.len() + 1 + i] == head(prefix, b)[prefix.len() + 1 + i]);
    }
    assert(a =~= b.subrange(0, a.len() as int));
}

/// The label of a split is determined by the name: what explains it is what is found.
pub proof fn lemma_split_is(
    prefix: Seq<char>,
    name: Seq<char>,
    labels: Seq<Seq<char>>,
    label: Seq<char>,
)
    requires
        explains(prefix, name, labels, label),
    ensures
        split_of(prefix, name, labels) == Some(
            (label, name.skip(head(prefix, label).len() as int)),
        ),
{
    let found = choose|found: Seq<char>| explains(prefix, name, labels, found);
    assert(explains(prefix, name, labels, found));
    assert(labels.contains(label) && labels.contains(found));
    assert(found.len() == label.len());
    lemma_same_length_heads(prefix, name, found, label);
    assert(found =~= label);
}

/// A machine's name leads back to the label and the handle it was made of, as
/// long as no label continues another.
pub proof fn law_split_inverts_machine_name(
    prefix: Seq<char>,
    label: Seq<char>,
    handle: Seq<char>,
    labels: Seq<Seq<char>>,
)
    requires
        labels.contains(label),
        forall|other: Seq<char>| #[trigger]
            labels.contains(other) && other != label ==> !label.is_prefix_of(other),
    ensures
        split_of(prefix, machine_name_of(prefix, label, handle), labels) == Some(
            (label, truncated(handle)),
        ),
{
    let name = machine_name_of(prefix, label, handle);
    let front = head(prefix, label);
    assert(front =~= name.subrange(0, front.len() as int));
    assert(explains(prefix, name, labels, label)) by {
        assert forall|other: Seq<char>| #[trigger]
            labels.contains(other) && head(prefix, other).is_prefix_of(name) implies other.len()
            <= label.len() by {
            if other.len() > label.len() {
                lemma_same_length_heads(prefix, name, label, other);
            }
        }
    }
    lemma_split_is(prefix, name, labels, label);
    assert(name.skip(front.len() as int) =~= truncated(handle));
}

/// Whatever a split finds, the name is made of it.
pub proof fn law_split_reassembles(prefix: Seq<char>, name: Seq<char>, labels: Seq<Seq<char>>)
    ensures
        split_of(prefix, name, labels) matches Some((label, handle)) ==> {
            &&& labels.contains(label)
            &&& name == head(prefix, label) + handle
            &&& ends_in(name, handle)
        },
{
    if split_of(prefix, name, labels) is Some {
        let label = choose|label: Seq<char>| explains(prefix, name, labels, label);
        assert(explains(prefix, name, labels, label));
        let front = head(prefix, label);
        let handle = name.skip(front.len() as int);
        assert(name =~= front + handle);
        reveal_strlit("-");
        assert(front.last() == '-');
        assert(("-"@ + handle) =~= name.subrange(name.len() - handle.len() - 1, name.len() as int));
    }
}

/// A name made under one prefix is never claimed under another, unless one of
/// the two prefixes continues the other behind a hyphen.
pub proof fn law_another_prefix_claims_nothing(
    prefix: Seq<char>,
    other: Seq<char>,
    label: Seq<char>,
    handle: Seq<char>,
    labels: Seq<Seq<char>>,
)
    requires
        !(prefix + "-"@).is_prefix_of(other + "-"@),
        !(other + "-"@).is_prefix_of(prefix + "-"@),
    ensures
        split_of(other, machine_name_of(prefix, label, handle), labels) is None,
{
    let name = machine_name_of(prefix, label, handle);
    if exists|found: Seq<char>| explains(other, name, labels, found) {
        let found = choose|found: Seq<char>| explains(other, name, labels, found);
        let front = head(other, found);
        let ours = prefix + "-"@;
        let theirs = other + "-"@;
        assert(front =~= theirs + (found + "-"@));
        assert(name =~= ours + (label + "-"@ + truncated(handle)));
        if ours.len() <= theirs.len() {
            assert forall|i: int| 0 <= i < ours.len() implies ours[i] == theirs[i] by {
                assert(name[i] == ours[i]);
                assert(front[i] == theirs[i]);
                assert(front[i] == name[i]);
            }
            assert(ours =~= theirs.subrange(0, ours.len() as int));
        } else {
            assert forall|i: int| 0 <= i < theirs.len() implies ours[i] == theirs[i] by {
                assert(name[i] == ours[i]);
                assert(front[i] == theirs[i]);
                assert(front[i] == name[i]);
            }
            assert(theirs =~= ours.subrange(0, theirs.len() as int));
        }
    }
}

proof fn lemma_sieved_chars(handle: Seq<char>)
    ensures
        forall|i: int|
            0 <= i < sieved(handle).len() ==> text::is_lower(#[trigger] sieved(handle)[i])
                || text::is_digit(sieved(handle)[i]) || sieved(handle)[i] == '-',
    decreases handle.len(),
{
    reveal(Seq::filter);
    if handle.len() > 0 {
        let at = handle.len() - 1;
        lemma_sieved_chars(handle.drop_last());
        lemma_sieved_step(handle, at);
        assert(handle.take(at + 1) =~= handle);
        assert(handle.take(at) =~= handle.drop_last());
    } else {
        assert(sieved(handle) =~= Seq::<char>::empty());
    }
}

proof fn lemma_sieved_fixed(name: Seq<char>)
    requires
        forall|i: int|
            0 <= i < name.len() ==> text::is_lower(#[trigger] name[i]) || text::is_digit(name[i])
                || name[i] == '-',
    ensures
        sieved(name) == name,
    decreases name.len(),
{
    reveal(Seq::filter);
    if name.len() > 0 {
        let at = name.len() - 1;
        lemma_sieved_fixed(name.drop_last());
        lemma_sieved_step(name, at);
        assert(name.take(at + 1) =~= name);
        assert(name.take(at) =~= name.drop_last());
        assert(name =~= name.drop_last().push(name[at]));
    } else {
        assert(sieved(name) =~= name);
    }
}

proof fn lemma_trimmed(text: Seq<char>, c: char)
    ensures
        text::trimmed_end(text, c).is_prefix_of(text),
        text::trimmed_end(text, c).len() > 0 ==> text::trimmed_end(text, c).last() != c,
    decreases text.len(),
{
    if text.len() > 0 && text.last() == c {
        lemma_trimmed(text.drop_last(), c);
        let cut = text::trimmed_end(text, c);
        assert(cut =~= text.drop_last().subrange(0, cut.len() as int));
        assert(cut =~= text.subrange(0, cut.len() as int));
    } else {
        assert(text =~= text.subrange(0, text.len() as int));
    }
}

/// A truncated handle is short, holds only characters of a hostname, does not
/// end in a hyphen, and is not changed by truncating it again.
pub proof fn law_truncated_handle(handle: Seq<char>)
    ensures
        truncated(handle).len() <= HANDLE_LEN,
        forall|i: int|
            0 <= i < truncated(handle).len() ==> text::is_lower(#[trigger] truncated(handle)[i])
                || text::is_digit(truncated(handle)[i]) || truncated(handle)[i] == '-',
        truncated(handle).len() > 0 ==> truncated(handle).last() != '-',
        truncated(truncated(handle)) == truncated(handle),
{
    let cut = text::clipped(sieved(handle), HANDLE_LEN as nat);
    let short = truncated(handle);
    lemma_sieved_chars(handle);
    lemma_trimmed(cut, '-');
    assert(short =~= cut.subrange(0, short.len() as int));
    assert forall|i: int| 0 <= i < short.len() implies text::is_lower(#[trigger] short[i])
        || text::is_digit(short[i]) || short[i] == '-' by {
        assert(short[i] == cut[i]);
        assert(cut[i] == sieved(handle)[i]);
    }
    lemma_sieved_fixed(short);
}

/// A handle of enough lower case letters and digits fills its place in a name.
pub proof fn lemma_full_handle(handle: Seq<char>)
    requires
        handle.len() >= HANDLE_LEN,
        forall|i: int|
            0 <= i < handle.len() ==> text::is_lower(#[trigger] handle[i]) || text::is_digit(
                handle[i],
            ),
    ensures
        truncated(handle) == handle.take(HANDLE_LEN as int),
{
    lemma_sieved_fixed(handle);
    assert(text::clipped(handle, HANDLE_LEN as nat) =~= handle.take(HANDLE_LEN as int));
    assert(handle.take(HANDLE_LEN as int).last() == handle[HANDLE_LEN - 1]);
}

/// A name made of a prefix and a label that are hostname labels is one too,
/// unless nothing of the handle is left.
pub proof fn law_machine_name_is_a_hostname(
    prefix: Seq<char>,
    label: Seq<char>,
    handle: Seq<char>,
)
    requires
        hostname_label(prefix),
        hostname_label(label),
        truncated(handle).len() > 0,
    ensures
        hostname_label(machine_name_of(prefix, label, handle)),
        machine_name_of(prefix, label, handle).len() <= prefix.len() + label.len() + 2 + HANDLE_LEN,
{
    law_truncated_handle(handle);
    reveal_strlit("-");
    let name = machine_name_of(prefix, label, handle);
    assert(name[0] == prefix[0]);
    assert(name.last() == truncated(handle).last());
    assert forall|i: int| 0 <= i < name.len() implies text::is_lower(#[trigger] name[i])
        || text::is_digit(name[i]) || name[i] == '-' by {
        let p = prefix.len() as int;
        let l = label.len() as int;
        if i < p {
            assert(name[i] == prefix[i]);
        } else if i == p {
        } else if i < p + 1 + l {
            assert(name[i] == label[i - p - 1]);
        } else if i == p + 1 + l {
        } else {
            assert(name[i] == truncated(handle)[i - p - l - 2]);
        }
    }
}

/// A machine is named by its prefix, its label and what is carried of the handle, with
/// hyphens between them.
pub proof fn law_a_machine_name_is_made_of_its_parts(
    prefix: &str,
    label: &str,
    handle: &str,
    name: String,
    short: String,
)
    requires
        call_ensures(machine_name, (prefix, label, handle), name),
        call_ensures(truncated_handle, (handle,), short),
    ensures
        name@ == prefix@ + "-"@ + label@ + "-"@ + short@,
{
}

/// A letter, a digit or a hyphen.
pub open spec fn is_plain(c: char) -> bool {
    ('a' <= c && c <= 'z') || ('A' <= c && c <= 'Z') || ('0' <= c && c <= '9') || c == '-'
}

proof fn lemma_sieved_joined(a: Seq<char>, b: Seq<char>)
    ensures
        sieved(a + b) == sieved(a) + sieved(b),
    decreases b.len(),
{
    reveal(Seq::filter);
    if b.len() == 0 {
        assert(a + b =~= a);
        assert(sieved(b) =~= Seq::<char>::empty());
        assert(sieved(a) + sieved(b) =~= sieved(a));
    } else {
        let whole = a + b;
        let at = whole.len() - 1;
        lemma_sieved_joined(a, b.drop_last());
        lemma_sieved_step(whole, at);
        lemma_sieved_step(b, b.len() - 1);
        assert(whole.take(at + 1) =~= whole);
        assert(whole.take(at) =~= a + b.drop_last());
        assert(b.take(b.len() as int) =~= b);
        assert(b.take(b.len() - 1) =~= b.drop_last());
        assert(sieved(whole) =~= sieved(a) + sieved(b));
    }
}

proof fn lemma_sieved_one(c: char)
    ensures
        sieved(seq![c]) == (if is_plain(c) {
            seq![text::lowered(c)]
        } else {
            Seq::empty()
        }),
{
    reveal(Seq::filter);
    let one = seq![c];
    lemma_sieved_step(one, 0);
    assert(one.take(1) =~= one);
    assert(one.take(0) =~= Seq::<char>::empty());
    assert(sieved(Seq::<char>::empty()) =~= Seq::<char>::empty());
    assert(sieved(one) =~= (if is_plain(c) {
        seq![text::lowered(c)]
    } else {
        Seq::empty()
    }));
}

/// What is not a letter, a digit or a hyphen is passed over wherever it stands in a
/// handle.
pub proof fn law_other_characters_are_passed_over(
    front: Seq<char>,
    c: char,
    back: Seq<char>,
    with: &str,
    without: &str,
    res: String,
    plain: String,
)
    requires
        !is_plain(c),
        with@ == front + seq![c] + back,
        without@ == front + back,
        call_ensures(truncated_handle, (with,), res),
        call_ensures(truncated_handle, (without,), plain),
    ensures
        res@ == plain@,
{
    lemma_sieved_one(c);
    lemma_sieved_joined(front + seq![c], back);
    lemma_sieved_joined(front, seq![c]);
    lemma_sieved_joined(front, back);
    assert(sieved(front) + Seq::<char>::empty() =~= sieved(front));
}

/// A capital letter counts as the small one wherever it stands in a handle.
pub proof fn law_capitals_are_lowered(
    front: Seq<char>,
    large: char,
    small: char,
    back: Seq<char>,
    shouted: &str,
    spoken: &str,
    res: String,
    plain: String,
)
    requires
        'A' <= large && large <= 'Z',
        small as int == large as int + 32,
        shouted@ == front + seq![large] + back,
        spoken@ == front + seq![small] + back,
        call_ensures(truncated_handle, (shouted,), res),
        call_ensures(truncated_handle, (spoken,), plain),
    ensures
        res@ == plain@,
{
    lemma_sieved_one(large);
    lemma_sieved_one(small);
    lemma_sieved_joined(front + seq![large], back);
    lemma_sieved_joined(front, seq![large]);
    lemma_sieved_joined(front + seq![small], back);
    lemma_sieved_joined(front, seq![small]);
    assert(text::lowered(large) == small);
    assert(text::lowered(small) == small);
}

/// Of a handle of small letters, digits and hyphens the first twenty-four characters
/// are carried, up to the last that is no hyphen.
pub proof fn law_a_short_handle_is_carried_whole(handle: &str, kept: Seq<char>, res: String)
    requires
        forall|i: int|
            0 <= i < handle@.len() ==> ('a' <= #[trigger] handle@[i] && handle@[i] <= 'z') || (
            '0' <= handle@[i] && handle@[i] <= '9') || handle@[i] == '-',
        kept == (if handle@.len() <= 24 {
            handle@
        } else {
            handle@.take(24)
        }),
        call_ensures(truncated_handle, (handle,), res),
    ensures
        res@ == kept.take(res@.len() as int),
        res@.len() <= kept.len(),
        res@.len() > 0 ==> res@.last() != '-',
        forall|i: int| res@.len() <= i < kept.len() ==> #[trigger] kept[i] == '-',
{
    lemma_sieved_fixed(handle@);
    assert(kept =~= text::clipped(handle@, HANDLE_LEN as nat));
    text::lemma_trimmed_end(kept, '-');
    lemma_trimmed(kept, '-');
    assert(res@ =~= kept.subrange(0, res@.len() as int));
}

/// The name begins with the prefix and the label, each followed by a hyphen.
pub open spec fn fits(prefix: Seq<char>, name: Seq<char>, label: Seq<char>) -> bool {
    exists|rest: Seq<char>| name == #[trigger] (prefix + "-"@ + label + "-"@ + rest)
}

pub(crate) proof fn lemma_fits(prefix: Seq<char>, name: Seq<char>, label: Seq<char>)
    ensures
        fits(prefix, name, label) <==> head(prefix, label).is_prefix_of(name),
{
    let front = head(prefix, label);
    if fits(prefix, name, label) {
        let rest = choose|rest: Seq<char>|
            name == #[trigger] (prefix + "-"@ + label + "-"@ + rest);
        assert(front =~= name.subrange(0, front.len() as int));
    }
    if front.is_prefix_of(name) {
        assert(name =~= prefix + "-"@ + label + "-"@ + name.skip(front.len() as int));
    }
}

/// What a name is split into makes up the name again, under one of the labels; no label
/// that fits is longer. A name that no label fits, and no other, is left whole.
pub proof fn law_a_name_is_split_at_the_longest_label(
    prefix: &str,
    name: &str,
    labels: &[String],
    res: Option<(&str, &str)>,
)
    requires
        call_ensures(split, (prefix, name, labels), res),
    ensures
        match res {
            Some((label, handle)) => {
                &&& name@ == prefix@ + "-"@ + label@ + "-"@ + handle@
                &&& exists|i: int| 0 <= i < labels@.len() && (#[trigger] labels@[i])@ == label@
                &&& forall|i: int|
                    0 <= i < labels@.len() && fits(prefix@, name@, (#[trigger] labels@[i])@)
                        ==> labels@[i]@.len() <= label@.len()
            },
            None => forall|i: int|
                0 <= i < labels@.len() ==> !fits(prefix@, name@, (#[trigger] labels@[i])@),
        },
{
    let all = text::texts(labels@);
    law_split_reassembles(prefix@, name@, all);
    assert forall|i: int|
        0 <= i < labels@.len() && fits(prefix@, name@, (#[trigger] labels@[i])@) implies res
        matches Some((label, _)) && labels@[i]@.len() <= label@.len() by {
        lemma_fits(prefix@, name@, labels@[i]@);
        assert(all[i] == labels@[i]@);
        assert(all.contains(all[i]));
        lemma_some_label_is_longest(prefix@, name@, all, i);
        let found = choose|found: Seq<char>| explains(prefix@, name@, all, found);
        assert(explains(prefix@, name@, all, found));
    }
    if let Some((label, _)) = res {
        let i = choose|i: int| 0 <= i < all.len() && all[i] == label@;
        assert(labels@[i]@ == label@);
    }
}

/// Of the labels that fit, one is the longest.
pub(crate) proof fn lemma_some_label_is_longest(
    prefix: Seq<char>,
    name: Seq<char>,
    labels: Seq<Seq<char>>,
    at: int,
)
    requires
        0 <= at < labels.len(),
        head(prefix, labels[at]).is_prefix_of(name),
    ensures
        exists|label: Seq<char>| explains(prefix, name, labels, label),
    decreases name.len() - labels[at].len(),
{
    if explains(prefix, name, labels, labels[at]) {
    } else {
        assert(labels.contains(labels[at]));
        let other = choose|other: Seq<char>| #[trigger]
            labels.contains(other) && head(prefix, other).is_prefix_of(name) && other.len()
                > labels[at].len();
        let next = choose|next: int| 0 <= next < labels.len() && labels[next] == other;
        lemma_some_label_is_longest(prefix, name, labels, next);
    }
}

/// A name serves a handle when the handle stands at its end, behind a hyphen.
pub proof fn law_a_name_serves_what_it_ends_in(name: &str, handle: &str, res: bool)
    requires
        call_ensures(serves, (name, handle), res),
    ensures
        res <==> exists|front: Seq<char>| name@ == #[trigger] (front + ("-"@ + handle@)),
{
    let tail = "-"@ + handle@;
    if res {
        let front = name@.take(name@.len() - tail.len());
        assert(name@ =~= front + tail);
    }
    if exists|front: Seq<char>| name@ == #[trigger] (front + tail) {
        let front = choose|front: Seq<char>| name@ == #[trigger] (front + tail);
        assert(tail =~= name@.subrange(name@.len() - tail.len(), name@.len() as int));
    }
}

/// A label of a hostname is made of small letters, digits and hyphens, and neither
/// begins nor ends with a hyphen.
pub proof fn law_a_hostname_label_is_plain(name: &str, res: bool)
    requires
        call_ensures(is_hostname_label, (name,), res),
    ensures
        res <==> {
            &&& name@.len() > 0
            &&& name@[0] != '-'
            &&& name@[name@.len() - 1] != '-'
            &&& forall|i: int|
                0 <= i < name@.len() ==> ('a' <= #[trigger] name@[i] && name@[i] <= 'z') || ('0'
                    <= name@[i] && name@[i] <= '9') || name@[i] == '-'
        },
{
}

} // verus!
