//! Text as sequences of characters: splitting at separators, joining, and
//! reading decimal numbers.

use vstd::prelude::*;
use vstd::string::StrSliceExecFns;
use vstd::string::StringExecFns;

verus! {

/// The characters of each text of a list.
pub open spec fn texts(list: Seq<String>) -> Seq<Seq<char>> {
    list.map_values(|text: String| text@)
}

/// The characters of `text`, one element each.
pub fn chars_of(text: &str) -> (chars: Vec<char>)
    ensures
        chars@ == text@,
{
    let mut chars: Vec<char> = Vec::new();
    for c in it: text.chars()
        invariant
            chars@ == it.seq().take(it.index() as int),
            it.seq() == text@,
    {
        chars.push(c);
    }
    chars
}

/// What divides a text into fields.
#[derive(Clone, Copy, Debug, PartialEq, Eq)]
pub enum Separator {
    /// A slash, between the segments of a path.
    Slash,
    /// A comma or white space, between the items of a list.
    List,
    /// A line feed, between the lines of a text.
    Line,
}

impl Separator {
    /// Whether `c` divides two fields.
    pub open spec fn divides(self, c: char) -> bool {
        match self {
            Separator::Slash => c == '/',
            Separator::List => c == ',' || c == ' ' || c == '\t' || c == '\n' || c == '\r',
            Separator::Line => c == '\n',
        }
    }

    /// Whether `c` divides two fields.
    pub fn is_at(self, c: char) -> (found: bool)
        ensures
            found == self.divides(c),
    {
        match self {
            Separator::Slash => c == '/',
            Separator::List => c == ',' || c == ' ' || c == '\t' || c == '\n' || c == '\r',
            Separator::Line => c == '\n',
        }
    }
}

/// The fields of `text`: the runs of characters between separators, empty
/// runs included. A text with n separators has n + 1 fields.
pub open spec fn fields(text: Seq<char>, sep: Separator) -> Seq<Seq<char>>
    decreases text.len(),
{
    if text.len() == 0 {
        seq![Seq::<char>::empty()]
    } else {
        let before = fields(text.drop_last(), sep);
        if sep.divides(text.last()) {
            before.push(Seq::empty())
        } else {
            before.drop_last().push(before.last().push(text.last()))
        }
    }
}

/// Those of `parts` that hold at least one character, in their order.
pub open spec fn nonempty(parts: Seq<Seq<char>>) -> Seq<Seq<char>>
    decreases parts.len(),
{
    if parts.len() == 0 {
        Seq::empty()
    } else if parts.last().len() > 0 {
        nonempty(parts.drop_last()).push(parts.last())
    } else {
        nonempty(parts.drop_last())
    }
}

/// The items of `text`: its fields that are not empty.
pub open spec fn tokens(text: Seq<char>, sep: Separator) -> Seq<Seq<char>> {
    nonempty(fields(text, sep))
}

/// Every field holds no separator, and there is at least one field.
pub proof fn lemma_fields_hold_no_separator(text: Seq<char>, sep: Separator)
    ensures
        fields(text, sep).len() >= 1,
        forall|i: int, j: int|
            0 <= i < fields(text, sep).len() && 0 <= j < fields(text, sep)[i].len()
                ==> !sep.divides(#[trigger] fields(text, sep)[i][j]),
    decreases text.len(),
{
    if text.len() > 0 {
        lemma_fields_hold_no_separator(text.drop_last(), sep);
    }
}

/// Whether `text` holds no separator.
pub open spec fn undivided(text: Seq<char>, sep: Separator) -> bool {
    forall|i: int| 0 <= i < text.len() ==> !sep.divides(#[trigger] text[i])
}

/// A text that holds no separator is one field.
pub proof fn lemma_fields_of_one(text: Seq<char>, sep: Separator)
    requires
        undivided(text, sep),
    ensures
        fields(text, sep) == seq![text],
    decreases text.len(),
{
    if text.len() == 0 {
        assert(text =~= Seq::<char>::empty());
    } else {
        let shorter = text.drop_last();
        assert forall|i: int| 0 <= i < shorter.len() implies !sep.divides(
            #[trigger] shorter[i],
        ) by {
            assert(shorter[i] == text[i]);
        }
        lemma_fields_of_one(shorter, sep);
        assert(!sep.divides(text[text.len() - 1]));
        assert(shorter.push(text.last()) =~= text);
        assert(seq![shorter].drop_last().push(shorter.push(text.last())) =~= seq![text]);
    }
}

/// What follows a separator without holding one is one more field.
pub proof fn lemma_fields_after_separator(head: Seq<char>, c: char, tail: Seq<char>, sep: Separator)
    requires
        sep.divides(c),
        undivided(tail, sep),
    ensures
        fields(head.push(c) + tail, sep) == fields(head, sep).push(tail),
    decreases tail.len(),
{
    let whole = head.push(c) + tail;
    if tail.len() == 0 {
        assert(whole =~= head.push(c));
        assert(whole.drop_last() =~= head);
        assert(tail =~= Seq::<char>::empty());
    } else {
        let shorter = tail.drop_last();
        assert forall|i: int| 0 <= i < shorter.len() implies !sep.divides(
            #[trigger] shorter[i],
        ) by {
            assert(shorter[i] == tail[i]);
        }
        lemma_fields_after_separator(head, c, shorter, sep);
        assert(whole.drop_last() =~= head.push(c) + shorter);
        assert(whole.last() == tail.last());
        assert(!sep.divides(tail[tail.len() - 1]));
        let before = fields(head, sep).push(shorter);
        assert(before.drop_last() =~= fields(head, sep));
        assert(shorter.push(tail.last()) =~= tail);
    }
}

/// The fields of parts that were joined by a separator are the parts,
/// where no part holds a separator.
pub proof fn lemma_fields_of_joined(parts: Seq<Seq<char>>, c: char, sep: Separator)
    requires
        sep.divides(c),
        parts.len() > 0,
        forall|i: int| 0 <= i < parts.len() ==> undivided(#[trigger] parts[i], sep),
    ensures
        fields(joined(parts, seq![c]), sep) == parts,
    decreases parts.len(),
{
    if parts.len() == 1 {
        lemma_fields_of_one(parts[0], sep);
        assert(seq![parts[0]] =~= parts);
    } else {
        let shorter = parts.drop_last();
        assert forall|i: int| 0 <= i < shorter.len() implies undivided(
            #[trigger] shorter[i],
            sep,
        ) by {
            assert(shorter[i] == parts[i]);
        }
        lemma_fields_of_joined(shorter, c, sep);
        let head = joined(shorter, seq![c]);
        assert(undivided(parts[parts.len() - 1], sep));
        lemma_fields_after_separator(head, c, parts.last(), sep);
        assert(head + seq![c] + parts.last() =~= head.push(c) + parts.last());
        assert(shorter.push(parts.last()) =~= parts);
    }
}

/// Parts that all hold a character are all kept.
pub proof fn lemma_nonempty_keeps_all(parts: Seq<Seq<char>>)
    requires
        forall|i: int| 0 <= i < parts.len() ==> (#[trigger] parts[i]).len() > 0,
    ensures
        nonempty(parts) == parts,
    decreases parts.len(),
{
    if parts.len() > 0 {
        let shorter = parts.drop_last();
        assert forall|i: int| 0 <= i < shorter.len() implies (#[trigger] shorter[i]).len()
            > 0 by {
            assert(shorter[i] == parts[i]);
        }
        lemma_nonempty_keeps_all(shorter);
        assert(parts[parts.len() - 1].len() > 0);
        assert(shorter.push(parts.last()) =~= parts);
    } else {
        assert(parts =~= Seq::<Seq<char>>::empty());
    }
}

/// Joined parts hold no separator where neither the parts nor the glue
/// hold one.
pub proof fn lemma_joined_is_undivided(parts: Seq<Seq<char>>, glue: Seq<char>, sep: Separator)
    requires
        undivided(glue, sep),
        forall|i: int| 0 <= i < parts.len() ==> undivided(#[trigger] parts[i], sep),
    ensures
        undivided(joined(parts, glue), sep),
    decreases parts.len(),
{
    if parts.len() >= 2 {
        let shorter = parts.drop_last();
        assert forall|i: int| 0 <= i < shorter.len() implies undivided(
            #[trigger] shorter[i],
            sep,
        ) by {
            assert(shorter[i] == parts[i]);
        }
        lemma_joined_is_undivided(shorter, glue, sep);
        let head = joined(shorter, glue);
        let whole = joined(parts, glue);
        assert(undivided(parts[parts.len() - 1], sep));
        assert forall|i: int| 0 <= i < whole.len() implies !sep.divides(#[trigger] whole[i]) by {
            if i < head.len() {
                assert(whole[i] == head[i]);
            } else if i < head.len() + glue.len() {
                assert(whole[i] == glue[i - head.len()]);
            } else {
                assert(whole[i] == parts.last()[i - head.len() - glue.len()]);
            }
        }
    } else if parts.len() == 1 {
        assert(undivided(parts[0], sep));
    }
}

/// Splits `text` into its fields.
pub fn split_fields(text: &str, sep: Separator) -> (parts: Vec<String>)
    ensures
        texts(parts@) == fields(text@, sep),
{
    let chars = chars_of(text);
    let n = chars.len();
    let mut parts: Vec<String> = Vec::new();
    let mut start: usize = 0;
    let mut i: usize = 0;
    proof {
        assert(text@.take(0) =~= Seq::<char>::empty());
        assert(text@.subrange(0, 0) =~= Seq::<char>::empty());
        assert(texts(parts@).push(text@.subrange(0, 0)) =~= seq![Seq::<char>::empty()]);
    }
    while i < n
        invariant
            start <= i <= n,
            n == chars.len(),
            chars@ == text@,
            fields(text@.take(i as int), sep) == texts(parts@).push(
                text@.subrange(start as int, i as int),
            ),
        decreases n - i,
    {
        let ghost done = texts(parts@);
        let ghost open = text@.subrange(start as int, i as int);
        proof {
            assert(text@.take(i + 1).drop_last() =~= text@.take(i as int));
            assert(text@.take(i + 1).last() == text@[i as int]);
            assert(done.push(open).drop_last() =~= done);
        }
        if sep.is_at(chars[i]) {
            let part = String::from_str(text.substring_char(start, i));
            parts.push(part);
            start = i + 1;
            proof {
                assert(texts(parts@) =~= done.push(open));
                assert(text@.subrange(i + 1, i + 1) =~= Seq::<char>::empty());
            }
        } else {
            proof {
                assert(text@.subrange(start as int, i + 1) =~= open.push(text@[i as int]));
            }
        }
        i = i + 1;
    }
    let part = String::from_str(text.substring_char(start, n));
    proof {
        assert(text@.take(n as int) =~= text@);
        assert(texts(parts@.push(part)) =~= texts(parts@).push(part@));
    }
    parts.push(part);
    parts
}

/// Splits `text` into its items: the fields that are not empty.
pub fn split_tokens(text: &str, sep: Separator) -> (items: Vec<String>)
    ensures
        texts(items@) == tokens(text@, sep),
{
    let parts = split_fields(text, sep);
    let mut items: Vec<String> = Vec::new();
    let mut i: usize = 0;
    proof {
        assert(texts(parts@).take(0) =~= Seq::<Seq<char>>::empty());
        assert(texts(items@) =~= Seq::<Seq<char>>::empty());
    }
    while i < parts.len()
        invariant
            i <= parts.len(),
            texts(items@) == nonempty(texts(parts@).take(i as int)),
        decreases parts.len() - i,
    {
        let ghost kept = texts(items@);
        proof {
            assert(texts(parts@).take(i + 1).drop_last() =~= texts(parts@).take(i as int));
            assert(texts(parts@).take(i + 1).last() == parts[i as int]@);
        }
        if parts[i].as_str().unicode_len() > 0 {
            let item = parts[i].clone();
            items.push(item);
            proof {
                assert(texts(items@) =~= kept.push(parts[i as int]@));
            }
        }
        i = i + 1;
    }
    proof {
        assert(texts(parts@).take(parts.len() as int) =~= texts(parts@));
    }
    items
}

/// The texts of `parts` in a row, with `glue` between each two.
pub open spec fn joined(parts: Seq<Seq<char>>, glue: Seq<char>) -> Seq<char>
    decreases parts.len(),
{
    if parts.len() == 0 {
        Seq::empty()
    } else if parts.len() == 1 {
        parts[0]
    } else {
        joined(parts.drop_last(), glue) + glue + parts.last()
    }
}

/// Joins `parts` into one text, with `glue` between each two.
pub fn join(parts: &Vec<String>, glue: &str) -> (whole: String)
    ensures
        whole@ == joined(texts(parts@), glue@),
{
    let mut whole = String::new();
    let mut i: usize = 0;
    proof {
        assert(texts(parts@).take(0) =~= Seq::<Seq<char>>::empty());
    }
    while i < parts.len()
        invariant
            i <= parts.len(),
            whole@ == joined(texts(parts@).take(i as int), glue@),
        decreases parts.len() - i,
    {
        proof {
            assert(texts(parts@).take(i + 1).drop_last() =~= texts(parts@).take(i as int));
            assert(texts(parts@).take(i + 1).last() == parts[i as int]@);
            if i == 0 {
                assert(whole@ + parts[i as int]@ =~= parts[i as int]@);
                assert(texts(parts@).take(1)[0] == parts[0]@);
            }
        }
        if i > 0 {
            whole.append(glue);
        }
        whole.append(parts[i].as_str());
        i = i + 1;
    }
    proof {
        assert(texts(parts@).take(parts.len() as int) =~= texts(parts@));
    }
    whole
}

/// `head` followed by `tail`.
pub fn concat_text(head: &str, tail: &str) -> (whole: String)
    ensures
        whole@ == head@ + tail@,
{
    let mut whole = String::from_str(head);
    whole.append(tail);
    whole
}

/// Whether `c` is a decimal digit.
pub open spec fn is_digit(c: char) -> bool {
    '0' <= c && c <= '9'
}

/// The number that a row of decimal digits stands for.
pub open spec fn decimal_value(digits: Seq<char>) -> nat
    decreases digits.len(),
{
    if digits.len() == 0 {
        0
    } else {
        (decimal_value(digits.drop_last()) * 10 + (digits.last() as nat - '0' as nat)) as nat
    }
}

/// Whether `text` is a non-empty row of decimal digits.
pub open spec fn is_decimal(text: Seq<char>) -> bool {
    text.len() > 0 && forall|i: int| 0 <= i < text.len() ==> is_digit(#[trigger] text[i])
}

/// The value of a row of digits is no less than that of any row it begins
/// with.
pub proof fn lemma_decimal_value_grows(digits: Seq<char>, k: int)
    requires
        0 <= k <= digits.len(),
        forall|i: int| 0 <= i < digits.len() ==> is_digit(#[trigger] digits[i]),
    ensures
        decimal_value(digits.take(k)) <= decimal_value(digits),
    decreases digits.len() - k,
{
    if k == digits.len() {
        assert(digits.take(k) =~= digits);
    } else {
        let longer = digits.take(k + 1);
        assert(longer.drop_last() =~= digits.take(k));
        assert(is_digit(digits[k]));
        assert(longer.last() == digits[k]);
        assert(decimal_value(longer) >= decimal_value(digits.take(k)));
        lemma_decimal_value_grows(digits, k + 1);
    }
}

/// Reads `text` as a decimal number. The result is the number where `text`
/// is a non-empty row of digits whose value fits, and nothing otherwise.
pub fn parse_decimal(text: &str) -> (number: Option<u64>)
    ensures
        number is Some <==> is_decimal(text@) && decimal_value(text@) <= u64::MAX,
        number is Some ==> number->0 == decimal_value(text@),
{
    let chars = chars_of(text);
    let n = chars.len();
    if n == 0 {
        return None;
    }
    let mut value: u64 = 0;
    let mut i: usize = 0;
    proof {
        assert(text@.take(0) =~= Seq::<char>::empty());
    }
    while i < n
        invariant
            i <= n,
            n == chars.len(),
            chars@ == text@,
            forall|j: int| 0 <= j < i ==> is_digit(#[trigger] text@[j]),
            value == decimal_value(text@.take(i as int)),
        decreases n - i,
    {
        let c = chars[i];
        if !(c >= '0' && c <= '9') {
            assert(!is_digit(text@[i as int]));
            return None;
        }
        let digit: u64 = (c as u32 - '0' as u32) as u64;
        proof {
            assert(text@.take(i + 1).drop_last() =~= text@.take(i as int));
            assert(text@.take(i + 1).last() == c);
        }
        let next = match value.checked_mul(10) {
            Some(tenfold) => tenfold.checked_add(digit),
            None => None,
        };
        match next {
            Some(v) => {
                value = v;
            },
            None => {
                proof {
                    assert(decimal_value(text@.take(i + 1)) > u64::MAX);
                    if is_decimal(text@) {
                        lemma_decimal_value_grows(text@, i + 1);
                    }
                }
                return None;
            },
        }
        i = i + 1;
    }
    proof {
        assert(text@.take(n as int) =~= text@);
    }
    Some(value)
}

/// The character of a digit.
pub open spec fn digit_char(digit: nat) -> char {
    if digit == 0 {
        '0'
    } else if digit == 1 {
        '1'
    } else if digit == 2 {
        '2'
    } else if digit == 3 {
        '3'
    } else if digit == 4 {
        '4'
    } else if digit == 5 {
        '5'
    } else if digit == 6 {
        '6'
    } else if digit == 7 {
        '7'
    } else if digit == 8 {
        '8'
    } else {
        '9'
    }
}

/// The digits of a number, the first of them not `0` unless the number is
/// zero.
pub open spec fn decimal_text_of(number: nat) -> Seq<char>
    decreases number,
{
    if number < 10 {
        seq![digit_char(number)]
    } else {
        decimal_text_of(number / 10).push(digit_char(number % 10))
    }
}

/// The digits of a number stand for the number.
pub proof fn lemma_decimal_text_reads_back(number: nat)
    ensures
        is_decimal(decimal_text_of(number)),
        decimal_value(decimal_text_of(number)) == number,
    decreases number,
{
    let text = decimal_text_of(number);
    if number < 10 {
        assert(text.drop_last() =~= Seq::<char>::empty());
        assert(text.last() == digit_char(number));
        assert(decimal_value(text.drop_last()) == 0);
    } else {
        lemma_decimal_text_reads_back(number / 10);
        assert(text.drop_last() =~= decimal_text_of(number / 10));
        assert(text.last() == digit_char(number % 10));
    }
}

/// The text of one digit.
fn digit_text(digit: u64) -> (text: &'static str)
    requires
        digit < 10,
    ensures
        text@ == seq![digit_char(digit as nat)],
{
    proof {
        reveal_strlit("0");
        reveal_strlit("1");
        reveal_strlit("2");
        reveal_strlit("3");
        reveal_strlit("4");
        reveal_strlit("5");
        reveal_strlit("6");
        reveal_strlit("7");
        reveal_strlit("8");
        reveal_strlit("9");
    }
    let text = if digit == 0 {
        "0"
    } else if digit == 1 {
        "1"
    } else if digit == 2 {
        "2"
    } else if digit == 3 {
        "3"
    } else if digit == 4 {
        "4"
    } else if digit == 5 {
        "5"
    } else if digit == 6 {
        "6"
    } else if digit == 7 {
        "7"
    } else if digit == 8 {
        "8"
    } else {
        "9"
    };
    assert(text@ =~= seq![digit_char(digit as nat)]);
    text
}

/// Writes a number in decimal digits.
pub fn decimal_text(number: u64) -> (text: String)
    ensures
        text@ == decimal_text_of(number as nat),
    decreases number,
{
    if number < 10 {
        String::from_str(digit_text(number))
    } else {
        let mut text = decimal_text(number / 10);
        let ghost before = text@;
        text.append(digit_text(number % 10));
        proof {
            assert(text@ =~= before.push(digit_char((number % 10) as nat)));
        }
        text
    }
}

} // verus!
