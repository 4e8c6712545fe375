//! Text with holes in it: `{name}` stands for the value of that name.
use vstd::prelude::*;

verus! {

/// A value that is put in place of the holes of that name.
#[derive(Clone, Debug, PartialEq, Eq)]
pub struct Value {
    pub name: String,
    pub text: String,
}

/// The values by name, as pairs.
pub open spec fn pairs(values: Seq<Value>) -> Seq<(Seq<char>, Seq<char>)> {
    values.map_values(|value: Value| (value.name@, value.text@))
}

/// The value of that name, the first where there are several; nothing where
/// there is none.
pub open spec fn value_of(values: Seq<(Seq<char>, Seq<char>)>, name: Seq<char>) -> Seq<char>
    decreases values.len(),
{
    if values.len() == 0 {
        Seq::empty()
    } else if values.first().0 == name {
        values.first().1
    } else {
        value_of(values.drop_first(), name)
    }
}

/// Where `c` first occurs at `from` or behind, the length of the text if it does not.
pub open spec fn find(text: Seq<char>, c: char, from: int) -> int
    decreases text.len() - from,
{
    if from >= text.len() {
        text.len() as int
    } else if text[from] == c {
        from
    } else {
        find(text, c, from + 1)
    }
}

/// The template from `from` on, with each hole replaced by its value.
pub open spec fn filled_from(
    template: Seq<char>,
    values: Seq<(Seq<char>, Seq<char>)>,
    from: int,
) -> Seq<char>
    decreases template.len() - from,
    when 0 <= from <= template.len()
    via filled_from_ends
{
    let open = find(template, '{', from);
    let close = find(template, '}', open);
    if close >= template.len() {
        template.skip(from)
    } else {
        template.subrange(from, open) + value_of(values, template.subrange(open + 1, close))
            + filled_from(template, values, close + 1)
    }
}

#[via_fn]
proof fn filled_from_ends(template: Seq<char>, values: Seq<(Seq<char>, Seq<char>)>, from: int) {
    lemma_find(template, '{', from);
    lemma_find(template, '}', find(template, '{', from));
}

/// The template with each hole replaced by its value.
pub open spec fn filled(template: Seq<char>, values: Seq<(Seq<char>, Seq<char>)>) -> Seq<char> {
    filled_from(template, values, 0)
}

/// What is found lies at `from` or behind.
proof fn lemma_find(text: Seq<char>, c: char, from: int)
    requires
        from <= text.len(),
    ensures
        from <= find(text, c, from) <= text.len(),
        find(text, c, from) < text.len() && 0 <= from ==> text[find(text, c, from)] == c,
        forall|i: int| from <= i < find(text, c, from) ==> text[i] != c,
    decreases text.len() - from,
{
    if from < text.len() && text[from] != c {
        lemma_find(text, c, from + 1);
    }
}

/// A text without holes stays as it is.
pub proof fn law_without_holes(template: Seq<char>, values: Seq<(Seq<char>, Seq<char>)>)
    requires
        !template.contains('{'),
    ensures
        filled(template, values) == template,
{
    lemma_find(template, '{', 0);
    lemma_find(template, '}', find(template, '{', 0));
    assert(template.skip(0) =~= template);
}

/// Where `c` first occurs at `from` or behind.
fn find_char(text: &str, c: char, from: usize, len: usize) -> (at: usize)
    requires
        from <= len,
        len == text@.len(),
    ensures
        at == find(text@, c, from as int),
{
    let mut i: usize = from;
    while i < len && text.get_char(i) != c
        invariant
            i <= len,
            len == text@.len(),
            find(text@, c, i as int) == find(text@, c, from as int),
        decreases len - i,
    {
        i = i + 1;
    }
    i
}

/// Appends the value of that name.
fn push_value(text: &mut String, values: &Vec<Value>, name: &str)
    ensures
        final(text)@ == old(text)@ + value_of(pairs(values@), name@),
{
    let wanted: String = name.to_owned();
    let ghost all = pairs(values@);
    let mut i: usize = 0;
    assert(all.skip(0) =~= all);
    while i < values.len()
        invariant
            i <= values.len(),
            all == pairs(values@),
            wanted@ == name@,
            text@ == old(text)@,
            value_of(all.skip(i as int), name@) == value_of(all, name@),
        decreases values.len() - i,
    {
        assert(all.skip(i as int).first() == all[i as int]);
        assert(all.skip(i as int).drop_first() =~= all.skip(i + 1));
        if values[i].name == wanted {
            text.append(values[i].text.as_str());
            return;
        }
        i = i + 1;
    }
    assert(text@ =~= old(text)@ + value_of(all, name@));
}

/// The template with each hole replaced by its value.
pub fn fill(template: &str, values: &Vec<Value>) -> (text: String)
    ensures
        text@ == filled(template@, pairs(values@)),
{
    let len: usize = template.unicode_len();
    let ghost all = pairs(values@);
    let mut text: String = String::new();
    let mut from: usize = 0;
    assert(text@ + filled_from(template@, all, 0) =~= filled(template@, all));
    loop
        invariant
            from <= len,
            len == template@.len(),
            all == pairs(values@),
            text@ + filled_from(template@, all, from as int) == filled(template@, all),
        decreases len - from,
    {
        proof {
            lemma_find(template@, '{', from as int);
        }
        let open: usize = find_char(template, '{', from, len);
        proof {
            lemma_find(template@, '}', open as int);
        }
        let close: usize = find_char(template, '}', open, len);
        if close >= len {
            text.append(template.substring_char(from, len));
            assert(template@.subrange(from as int, len as int) =~= template@.skip(from as int));
            return text;
        }
        let ghost before = text@;
        text.append(template.substring_char(from, open));
        push_value(&mut text, values, template.substring_char(open + 1, close));
        proof {
            let head = template@.subrange(from as int, open as int);
            let value = value_of(all, template@.subrange(open + 1, close as int));
            let rest = filled_from(template@, all, close + 1);
            assert(before + (head + value + rest) =~= before + head + value + rest);
        }
        from = close + 1;
    }
}

/// Where a character is found does not depend on what stands before.
proof fn lemma_find_shift(text: Seq<char>, c: char, from: int, by: int)
    requires
        0 <= by <= from <= text.len(),
    ensures
        find(text, c, from) == by + find(text.skip(by), c, from - by),
    decreases text.len() - from,
{
    if from < text.len() {
        assert(text.skip(by)[from - by] == text[from]);
        if text[from] != c {
            lemma_find_shift(text, c, from + 1, by);
        }
    }
}

/// The template from a place on is the template that begins there.
proof fn lemma_filled_shift(
    template: Seq<char>,
    values: Seq<(Seq<char>, Seq<char>)>,
    from: int,
    by: int,
)
    requires
        0 <= by <= from <= template.len(),
    ensures
        filled_from(template, values, from) == filled_from(
            template.skip(by),
            values,
            from - by,
        ),
    decreases template.len() - from,
{
    let rest = template.skip(by);
    let open = find(template, '{', from);
    lemma_find(template, '{', from);
    lemma_find_shift(template, '{', from, by);
    let close = find(template, '}', open);
    lemma_find(template, '}', open);
    lemma_find_shift(template, '}', open, by);
    if close >= template.len() {
        assert(template.skip(from) =~= rest.skip(from - by));
    } else {
        assert(template.subrange(from, open) =~= rest.subrange(from - by, open - by));
        assert(template.subrange(open + 1, close) =~= rest.subrange(open - by + 1, close - by));
        lemma_filled_shift(template, values, close + 1, by);
    }
}

/// Where a character is found behind a text without it.
proof fn lemma_find_behind(before: Seq<char>, c: char, after: Seq<char>, from: int)
    requires
        !before.contains(c),
        0 <= from <= before.len(),
    ensures
        find(before + seq![c] + after, c, from) == before.len(),
    decreases before.len() - from,
{
    let text = before + seq![c] + after;
    if from < before.len() {
        assert(text[from] == before[from]);
        assert(before.contains(before[from]));
        lemma_find_behind(before, c, after, from + 1);
    } else {
        assert(text[from] == c);
    }
}

/// A hole is replaced by the value of its name; what stands before it stays, and what
/// stands behind it is filled in the same way.
pub proof fn law_hole_is_filled(
    before: Seq<char>,
    name: Seq<char>,
    after: Seq<char>,
    values: Seq<(Seq<char>, Seq<char>)>,
)
    requires
        !before.contains('{'),
        !name.contains('}'),
    ensures
        filled(before + seq!['{'] + name + seq!['}'] + after, values) == before + value_of(
            values,
            name,
        ) + filled(after, values),
{
    let text = before + seq!['{'] + name + seq!['}'] + after;
    let open = before.len() as int;
    let close = open + 1 + name.len();
    assert(text =~= before + seq!['{'] + (name + seq!['}'] + after));
    lemma_find_behind(before, '{', name + seq!['}'] + after, 0);
    assert(find(text, '{', 0) == open);
    lemma_find_shift(text, '}', open, open);
    assert(text.skip(open) =~= (seq!['{'] + name) + seq!['}'] + after);
    assert(!(seq!['{'] + name).contains('}')) by {
        let start = seq!['{'] + name;
        if start.contains('}') {
            let i = choose|i: int| 0 <= i < start.len() && start[i] == '}';
            if i > 0 {
                assert(name[i - 1] == '}');
            }
        }
    }
    lemma_find_behind(seq!['{'] + name, '}', after, 0);
    assert(find(text, '}', open) == close);
    assert(text.subrange(0, open) =~= before);
    assert(text.subrange(open + 1, close) =~= name);
    lemma_filled_shift(text, values, close + 1, close + 1);
    assert(text.skip(close + 1) =~= after);
}

/// The value of a name is that of the first pair with it.
pub proof fn law_first_value(values: Seq<(Seq<char>, Seq<char>)>, i: int)
    requires
        0 <= i < values.len(),
        forall|j: int| 0 <= j < i ==> (#[trigger] values[j]).0 != values[i].0,
    ensures
        value_of(values, values[i].0) == values[i].1,
    decreases values.len(),
{
    if i > 0 {
        let rest = values.drop_first();
        assert(values.first() == values[0]);
        assert(values[0].0 != values[i].0);
        assert forall|j: int| 0 <= j < i - 1 implies (#[trigger] rest[j]).0 != rest[i - 1].0 by {
            assert(rest[j] == values[j + 1]);
        }
        assert(rest[i - 1] == values[i]);
        law_first_value(rest, i - 1);
    }
}

} // verus!
