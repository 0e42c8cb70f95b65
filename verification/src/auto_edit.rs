use vstd::prelude::*;

verus! {

/// The decimal digits of `n`, most significant first.
pub open spec fn decimal_text(n: nat) -> Seq<char>
    decreases n,
{
    if n < 10 {
        seq![digit_char(n)]
    } else {
        decimal_text(n / 10).push(digit_char(n % 10))
    }
}

pub open spec fn digit_char(d: nat) -> char {
    if d == 0 {
        '0'
    } else if d == 1 {
        '1'
    } else if d == 2 {
        '2'
    } else if d == 3 {
        '3'
    } else if d == 4 {
        '4'
    } else if d == 5 {
        '5'
    } else if d == 6 {
        '6'
    } else if d == 7 {
        '7'
    } else if d == 8 {
        '8'
    } else {
        '9'
    }
}

/// The decimal digits of `n` as numbers, most significant first.
fn decimal_digits(n: usize) -> (r: Vec<usize>)
    ensures
        r@.len() > 0,
        forall|i: int| 0 <= i < r@.len() ==> r@[i] < 10,
        r@.map_values(|d: usize| digit_char(d as nat)) == decimal_text(n as nat),
    decreases n,
{
    if n < 10 {
        let mut r: Vec<usize> = Vec::new();
        r.push(n);
        assert(r@.map_values(|d: usize| digit_char(d as nat)) =~= seq![digit_char(n as nat)]);
        r
    } else {
        let mut r = decimal_digits(n / 10);
        let ghost r0 = r@;
        r.push(n % 10);
        assert(r@.map_values(|d: usize| digit_char(d as nat)) =~= r0.map_values(
            |d: usize| digit_char(d as nat),
        ).push(digit_char((n % 10) as nat)));
        r
    }
}

/// The label of the item at `index` of an automatically edited list: the index in square
/// brackets.
pub fn list_item_label(index: usize) -> (r: String)
    ensures
        r@ == "["@ + decimal_text(index as nat) + "]"@,
{
    proof {
        reveal_strlit("0123456789");
    }
    let digits = decimal_digits(index);
    let ghost text = digits@.map_values(|d: usize| digit_char(d as nat));
    let mut r = String::from_str("[");
    let mut i: usize = 0;
    while i < digits.len()
        invariant
            i <= digits.len(),
            text == digits@.map_values(|d: usize| digit_char(d as nat)),
            forall|k: int| 0 <= k < digits@.len() ==> digits@[k] < 10,
            r@ == "["@ + text.take(i as int),
        decreases digits.len() - i,
    {
        let d = digits[i];
        proof {
            reveal_strlit("0123456789");
        }
        let one = "0123456789".substring_char(d, d + 1);
        assert(one@ =~= seq![digit_char(d as nat)]);
        r.append(one);
        assert(text.take(i + 1) =~= text.take(i as int).push(text[i as int]));
        assert(r@ =~= "["@ + text.take(i + 1));
        i = i + 1;
    }
    assert(text.take(i as int) =~= text);
    r.append("]");
    r
}

/// The checkbox of an optional field changed to `has_value`: the field gets the default value
/// when checked, and loses its value when unchecked.
pub fn set_optional_present<T>(value: &mut Option<T>, has_value: bool, default: T)
    ensures
        *final(value) == if has_value {
            Some(default)
        } else {
            None::<T>
        },
{
    if has_value {
        *value = Some(default);
    } else {
        *value = None;
    }
}

/// The edits of an automatically edited list in one frame: the item whose "−" button was
/// clicked is removed, then, when "+" was clicked, a default item is added at the end.
pub fn apply_list_edits<T>(value: &mut Vec<T>, to_remove: Option<usize>, added: Option<T>)
    requires
        to_remove matches Some(i) ==> i < old(value)@.len(),
    ensures
        ({
            let kept = match to_remove {
                Some(i) => old(value)@.remove(i as int),
                None => old(value)@,
            };
            final(value)@ == match added {
                Some(x) => kept.push(x),
                None => kept,
            }
        }),
{
    if let Some(i) = to_remove {
        value.remove(i);
    }
    if let Some(x) = added {
        value.push(x);
    }
}

/// The label of an automatically edited field: the one given with `label`, else the field's
/// name with its underscores made spaces.
pub open spec fn spec_field_label(label: Option<Seq<char>>, field_name: Seq<char>) -> Seq<char> {
    match label {
        Some(l) => l,
        None => field_name.map_values(|c: char| if c == '_' {
            ' '
        } else {
            c
        }),
    }
}

/// The label of an automatically edited field (see [`spec_field_label`]).
pub fn field_label(label: Option<&str>, field_name: &str) -> (r: String)
    ensures
        r@ == spec_field_label(
            match label {
                Some(l) => Some(l@),
                None => None,
            },
            field_name@,
        ),
{
    proof {
        reveal_strlit(" ");
    }
    if let Some(l) = label {
        return String::from_str(l);
    }
    let ghost target = field_name@.map_values(|c: char| if c == '_' {
        ' '
    } else {
        c
    });
    let n = field_name.unicode_len();
    let mut r = String::new();
    let mut i: usize = 0;
    let mut start: usize = 0;
    while i < n
        invariant
            n == field_name@.len(),
            start <= i <= n,
            target == field_name@.map_values(|c: char| if c == '_' {
                ' '
            } else {
                c
            }),
            r@ + field_name@.subrange(start as int, i as int) == target.take(i as int),
            forall|k: int| start <= k < i ==> field_name@[k] != '_',
        decreases n - i,
    {
        if field_name.get_char(i) == '_' {
            r.append(field_name.substring_char(start, i));
            proof {
                reveal_strlit(" ");
            }
            r.append(" ");
            assert(target.take(i + 1) =~= target.take(i as int).push(' '));
            assert(field_name@.subrange(i + 1, i + 1) =~= Seq::<char>::empty());
            assert(r@ + field_name@.subrange(i + 1, i + 1) =~= target.take(i + 1));
            start = i + 1;
        } else {
            assert(field_name@.subrange(start as int, i + 1) =~= field_name@.subrange(
                start as int,
                i as int,
            ).push(field_name@[i as int]));
            assert(target.take(i + 1) =~= target.take(i as int).push(field_name@[i as int]));
        }
        i = i + 1;
    }
    r.append(field_name.substring_char(start, n));
    assert(target.take(n as int) =~= target);
    r
}

/// Whether `c` is white space (the Unicode `White_Space` property, which `char::is_whitespace`
/// follows).
pub open spec fn is_white_space(c: char) -> bool {
    let u = c as u32;
    (0x9 <= u <= 0xd) || u == 0x20 || u == 0x85 || u == 0xa0 || u == 0x1680 || (0x2000 <= u
        <= 0x200a) || u == 0x2028 || u == 0x2029 || u == 0x202f || u == 0x205f || u == 0x3000
}

fn white_space(c: char) -> (r: bool)
    ensures
        r == is_white_space(c),
{
    let u = c as u32;
    (0x9 <= u && u <= 0xd) || u == 0x20 || u == 0x85 || u == 0xa0 || u == 0x1680 || (0x2000 <= u
        && u <= 0x200a) || u == 0x2028 || u == 0x2029 || u == 0x202f || u == 0x205f || u == 0x3000
}

/// The number of white-space characters at the start of `s`.
pub open spec fn leading_white(s: Seq<char>) -> nat
    decreases s.len(),
{
    if s.len() > 0 && is_white_space(s[0]) {
        1 + leading_white(s.drop_first())
    } else {
        0
    }
}

/// The number of white-space characters at the end of `s`.
pub open spec fn trailing_white(s: Seq<char>) -> nat
    decreases s.len(),
{
    if s.len() > 0 && is_white_space(s.last()) {
        1 + trailing_white(s.drop_last())
    } else {
        0
    }
}

/// `s` without its leading and trailing white space.
pub open spec fn spec_trim(s: Seq<char>) -> Seq<char> {
    if leading_white(s) >= s.len() {
        Seq::empty()
    } else {
        s.subrange(leading_white(s) as int, s.len() - trailing_white(s))
    }
}

/// The pieces of `s` between commas, in order (a text without commas is one piece).
pub open spec fn comma_pieces(s: Seq<char>) -> Seq<Seq<char>>
    decreases s.len(),
{
    if s.len() == 0 {
        seq![s]
    } else if s.last() == ',' {
        comma_pieces(s.drop_last()).push(Seq::empty())
    } else {
        let p = comma_pieces(s.drop_last());
        p.update(p.len() - 1, p.last().push(s.last()))
    }
}

proof fn lemma_comma_pieces_len(s: Seq<char>)
    ensures
        comma_pieces(s).len() >= 1,
    decreases s.len(),
{
    if s.len() > 0 {
        lemma_comma_pieces_len(s.drop_last());
    }
}

proof fn lemma_leading_white(s: Seq<char>, i: int)
    requires
        0 <= i <= s.len(),
        forall|j: int| 0 <= j < i ==> is_white_space(#[trigger] s[j]),
        i < s.len() ==> !is_white_space(s[i]),
    ensures
        leading_white(s) == i,
    decreases i,
{
    if i > 0 {
        lemma_leading_white(s.drop_first(), i - 1);
    }
}

proof fn lemma_trailing_white(s: Seq<char>, i: int)
    requires
        0 <= i <= s.len(),
        forall|j: int| s.len() - i <= j < s.len() ==> is_white_space(#[trigger] s[j]),
        i < s.len() ==> !is_white_space(s[s.len() - 1 - i]),
    ensures
        trailing_white(s) == i,
    decreases i,
{
    if i > 0 {
        lemma_trailing_white(s.drop_last(), i - 1);
    }
}

/// `s` without its leading and trailing white space.
pub fn trim_text(s: &str) -> (r: String)
    ensures
        r@ == spec_trim(s@),
{
    let n = s.unicode_len();
    let mut lead: usize = 0;
    while lead < n && white_space(s.get_char(lead))
        invariant
            n == s@.len(),
            lead <= n,
            forall|j: int| 0 <= j < lead ==> is_white_space(#[trigger] s@[j]),
        decreases n - lead,
    {
        lead = lead + 1;
    }
    proof {
        lemma_leading_white(s@, lead as int);
    }
    if lead >= n {
        return String::new();
    }
    let mut trail: usize = 0;
    while trail < n - lead && white_space(s.get_char(n - 1 - trail))
        invariant
            n == s@.len(),
            lead < n,
            trail <= n - lead,
            forall|j: int| n - trail <= j < n ==> is_white_space(#[trigger] s@[j]),
        decreases n - lead - trail,
    {
        trail = trail + 1;
    }
    proof {
        if trail == n - lead {
            assert(is_white_space(s@[lead as int]));
            assert(false);
        }
        lemma_trailing_white(s@, trail as int);
    }
    String::from_str(s.substring_char(lead, n - trail))
}

/// The file extensions of an asset field (`asset = "png, jpg"`): the comma-separated pieces,
/// each trimmed.
pub fn asset_extensions(value: &str) -> (r: Vec<String>)
    ensures
        r@.len() == comma_pieces(value@).len(),
        forall|i: int| 0 <= i < r@.len() ==> #[trigger] r@[i]@ == spec_trim(comma_pieces(value@)[i]),
{
    let n = value.unicode_len();
    let mut r: Vec<String> = Vec::new();
    let mut start: usize = 0;
    let mut i: usize = 0;
    proof {
        assert(value@.take(0) =~= Seq::<char>::empty());
    }
    while i < n
        invariant
            n == value@.len(),
            start <= i <= n,
            comma_pieces(value@.take(i as int)).len() == r@.len() + 1,
            forall|k: int| 0 <= k < r@.len() ==> #[trigger] r@[k]@ == spec_trim(
                comma_pieces(value@.take(i as int))[k],
            ),
            comma_pieces(value@.take(i as int)).last() == value@.subrange(start as int, i as int),
        decreases n - i,
    {
        let ghost t0 = value@.take(i as int);
        let ghost t1 = value@.take(i + 1);
        assert(t1.drop_last() =~= t0);
        assert(t1.last() == value@[i as int]);
        proof {
            lemma_comma_pieces_len(t0);
        }
        if value.get_char(i) == ',' {
            let piece = trim_text(value.substring_char(start, i));
            r.push(piece);
            proof {
                assert(comma_pieces(t1) == comma_pieces(t0).push(Seq::empty()));
                assert(value@.subrange(i + 1, i + 1) =~= Seq::<char>::empty());
            }
            start = i + 1;
        } else {
            proof {
                assert(value@.subrange(start as int, i + 1) =~= value@.subrange(
                    start as int,
                    i as int,
                ).push(value@[i as int]));
            }
        }
        i = i + 1;
    }
    assert(value@.take(n as int) =~= value@);
    let last = trim_text(value.substring_char(start, n));
    r.push(last);
    r
}

} // verus!
