//! Form data, as scripts put it in the bodies of requests.
use crate::value::{ScriptError, ScriptErrorView, ScriptValue};
use vstd::prelude::*;
use vstd::string::*;
use vstd::utf8;

verus! {

/// Whether a byte stands for itself in form data.
pub open spec fn unchanged(b: u8) -> bool {
    ||| b == 0x2a
    ||| b == 0x2d
    ||| b == 0x2e
    ||| b == 0x5f
    ||| 0x30 <= b <= 0x39
    ||| 0x41 <= b <= 0x5a
    ||| 0x61 <= b <= 0x7a
}

/// The hexadecimal digit of a number below sixteen, in capital letters.
pub open spec fn hex_digit(n: int) -> char {
    if n < 10 {
        (0x30 + n) as char
    } else {
        (0x41 + n - 10) as char
    }
}

/// What a byte is written as in form data.
pub open spec fn encoded_byte(b: u8) -> Seq<char> {
    if unchanged(b) {
        seq![b as char]
    } else if b == 0x20 {
        seq!['+']
    } else {
        seq!['%', hex_digit(b as int / 16), hex_digit(b as int % 16)]
    }
}

/// What bytes are written as in form data.
pub open spec fn encoded_bytes(bytes: Seq<u8>) -> Seq<char>
    decreases bytes.len(),
{
    if bytes.len() == 0 {
        Seq::empty()
    } else {
        encoded_bytes(bytes.drop_last()) + encoded_byte(bytes.last())
    }
}

/// What a text is written as in form data.
pub open spec fn encoded(s: Seq<char>) -> Seq<char> {
    encoded_bytes(utf8::encode_utf8(s))
}

/// Form data with one more pair.
pub open spec fn with_pair(form: Seq<char>, key: Seq<char>, value: Seq<char>) -> Seq<char> {
    let start = if form.len() == 0 {
        form
    } else {
        form.push('&')
    };
    (start + encoded(key)).push('=') + encoded(value)
}

/// Calls `Serializer::append_pair` on form data: after a separator, where there is something
/// before, it appends the key, an equals sign and the value. Of the UTF-8 bytes of each it
/// leaves letters, digits and `*-._`, writes a space as a plus sign and any other byte as a
/// percent sign with two hexadecimal digits.
#[verifier::external_body]
fn append_pair(form: String, key: &str, value: &str) -> (r: String)
    ensures
        r@ == with_pair(form@, key@, value@),
{
    let mut serializer = form_urlencoded::Serializer::new(form);
    serializer.append_pair(key, value);
    serializer.finish()
}

/// The form data that the keys and values of a table make, or the error of the first that is
/// not text.
pub open spec fn form_of(pairs: Seq<(ScriptValue, ScriptValue)>) -> Result<
    Seq<char>,
    ScriptErrorView,
>
    decreases pairs.len(),
{
    if pairs.len() == 0 {
        Ok(Seq::empty())
    } else {
        match form_of(pairs.drop_last()) {
            Ok(form) => match pairs.last().0.text() {
                Ok(key) => match pairs.last().1.text() {
                    Ok(value) => Ok(with_pair(form, key, value)),
                    Err(e) => Err(e),
                },
                Err(e) => Err(e),
            },
            Err(e) => Err(e),
        }
    }
}

/// Once a pair is not text, what follows does not matter.
proof fn lemma_first_form_error_stays(pairs: Seq<(ScriptValue, ScriptValue)>, n: int)
    requires
        0 <= n <= pairs.len(),
        form_of(pairs.take(n)) is Err,
    ensures
        form_of(pairs) == form_of(pairs.take(n)),
    decreases pairs.len() - n,
{
    if n == pairs.len() {
        assert(pairs.take(n) =~= pairs);
    } else {
        assert(pairs.take(n + 1).drop_last() =~= pairs.take(n));
        lemma_first_form_error_stays(pairs, n + 1);
    }
}

/// Makes form data of the keys and values of a table, in their order.
pub fn formdata(pairs: &Vec<(ScriptValue, ScriptValue)>) -> (r: Result<String, ScriptError>)
    ensures
        r matches Ok(form) ==> form_of(pairs@) == Ok::<Seq<char>, ScriptErrorView>(form@),
        r matches Err(e) ==> form_of(pairs@) == Err::<Seq<char>, ScriptErrorView>(e@),
{
    let mut form = String::new();
    let mut i: usize = 0;
    assert(form@ =~= Seq::<char>::empty());
    while i < pairs.len()
        invariant
            i <= pairs@.len(),
            form_of(pairs@.take(i as int)) == Ok::<Seq<char>, ScriptErrorView>(form@),
        decreases pairs@.len() - i,
    {
        proof {
            assert(pairs@.take(i + 1).drop_last() =~= pairs@.take(i as int));
            assert(pairs@.take(i + 1).last() == pairs@[i as int]);
        }
        let key = match pairs[i].0.read_text() {
            Ok(key) => key,
            Err(e) => {
                proof {
                    lemma_first_form_error_stays(pairs@, i + 1);
                }
                return Err(e);
            },
        };
        let value = match pairs[i].1.read_text() {
            Ok(value) => value,
            Err(e) => {
                proof {
                    lemma_first_form_error_stays(pairs@, i + 1);
                }
                return Err(e);
            },
        };
        form = append_pair(form, key.as_str(), value.as_str());
        i = i + 1;
    }
    assert(pairs@.take(i as int) =~= pairs@);
    Ok(form)
}

/// Keys and values are written without the signs that part them.
pub proof fn law_encoded_holds_no_separators(s: Seq<char>)
    ensures
        !encoded(s).contains('&'),
        !encoded(s).contains('='),
{
    lemma_encoded_bytes_hold_no_separators(utf8::encode_utf8(s));
}

/// Bytes are written without the signs that part keys and values.
proof fn lemma_encoded_bytes_hold_no_separators(bytes: Seq<u8>)
    ensures
        forall|i: int|
            0 <= i < encoded_bytes(bytes).len() ==> #[trigger] encoded_bytes(bytes)[i] != '&'
                && encoded_bytes(bytes)[i] != '=',
    decreases bytes.len(),
{
    if bytes.len() > 0 {
        lemma_encoded_bytes_hold_no_separators(bytes.drop_last());
        let before = encoded_bytes(bytes.drop_last());
        let last = encoded_byte(bytes.last());
        assert forall|i: int| 0 <= i < encoded_bytes(bytes).len() implies #[trigger] encoded_bytes(
            bytes,
        )[i] != '&' && encoded_bytes(bytes)[i] != '=' by {
            if i >= before.len() {
                assert(encoded_bytes(bytes)[i] == last[i - before.len()]);
            }
        }
    }
}

/// Form data that is made is never empty but of no pairs.
proof fn lemma_form_not_empty(pairs: Seq<(ScriptValue, ScriptValue)>)
    requires
        form_of(pairs) is Ok,
        pairs.len() > 0,
    ensures
        form_of(pairs)->Ok_0.len() > 0,
{
}

/// Form data is made of every pair, in their order: no pairs make none, a single one its key, an
/// equals sign and its value, each as it is written in form data, and the pairs of two tables those
/// of the one, an ampersand and those of the other.
pub proof fn law_form_data_holds_every_pair(
    a: Seq<(ScriptValue, ScriptValue)>,
    b: Seq<(ScriptValue, ScriptValue)>,
    whole: Vec<(ScriptValue, ScriptValue)>,
    r: Result<String, ScriptError>,
)
    requires
        whole@ == a + b,
        call_ensures(formdata, (&whole,), r),
    ensures
        whole@.len() == 0 ==> (r matches Ok(form) && form@.len() == 0),
        whole@.len() == 1 ==> match (whole@[0].0.as_text, whole@[0].1.as_text) {
            (Ok(key), Ok(value)) => r matches Ok(form) && form@ == encoded(key@) + seq!['=']
                + encoded(value@),
            _ => r is Err,
        },
        r is Ok == (form_of(a) is Ok && form_of(b) is Ok),
        a.len() > 0 && b.len() > 0 ==> (r matches Ok(form) ==> form@ == form_of(a)->Ok_0 + seq!['&']
            + form_of(b)->Ok_0),
{
    lemma_forms_join(a, b);
    if whole@.len() == 1 {
        assert(form_of(whole@.drop_last()) == Ok::<Seq<char>, ScriptErrorView>(Seq::empty()));
        if let (Ok(key), Ok(value)) = (whole@[0].0.as_text, whole@[0].1.as_text) {
            let start = Seq::<char>::empty();
            assert((start + encoded(key@)).push('=') + encoded(value@) =~= encoded(key@) + seq![
                '=',
            ] + encoded(value@));
        }
    }
}

/// The form data of two tables is that of the one, an ampersand and that of the other.
proof fn lemma_forms_join(
    a: Seq<(ScriptValue, ScriptValue)>,
    b: Seq<(ScriptValue, ScriptValue)>,
)
    ensures
        form_of(a + b) is Ok == (form_of(a) is Ok && form_of(b) is Ok),
        b.len() == 0 ==> form_of(a + b) == form_of(a),
        a.len() > 0 && b.len() > 0 && form_of(a + b) is Ok ==> form_of(a + b)->Ok_0 == form_of(
            a,
        )->Ok_0 + seq!['&'] + form_of(b)->Ok_0,
        a.len() == 0 ==> form_of(a + b) == form_of(b),
    decreases b.len(),
{
    if b.len() == 0 {
        assert(a + b =~= a);
    } else {
        let less = b.drop_last();
        assert((a + b).drop_last() =~= a + less);
        assert((a + b).last() == b.last());
        lemma_forms_join(a, less);
        if a.len() == 0 {
            assert(a + b =~= b);
        }
        if a.len() > 0 && form_of(a + b) is Ok {
            let key = encoded(b.last().0.as_text->Ok_0@);
            let value = encoded(b.last().1.as_text->Ok_0@);
            let first = form_of(a)->Ok_0;
            lemma_form_not_empty(a);
            lemma_form_not_empty(a + less);
            if less.len() == 0 {
                let none = Seq::<char>::empty();
                assert((first.push('&') + key).push('=') + value =~= first + seq!['&'] + ((none
                    + key).push('=') + value));
            } else {
                lemma_form_not_empty(less);
                let rest = form_of(less)->Ok_0;
                assert(((first + seq!['&'] + rest).push('&') + key).push('=') + value =~= first
                    + seq!['&'] + ((rest.push('&') + key).push('=') + value));
            }
        }
    }
}

/// Form data is made exactly where every key and every value is text.
pub proof fn law_form_data_is_made_of_text(
    pairs: Vec<(ScriptValue, ScriptValue)>,
    r: Result<String, ScriptError>,
)
    requires
        call_ensures(formdata, (&pairs,), r),
    ensures
        r is Ok == (forall|i: int|
            0 <= i < pairs@.len() ==> (#[trigger] pairs@[i]).0.as_text is Ok && pairs@[i].1.as_text
                is Ok),
{
    lemma_all_text(pairs@);
}

/// Form data is made where every key and every value is text.
proof fn lemma_all_text(pairs: Seq<(ScriptValue, ScriptValue)>)
    ensures
        form_of(pairs) is Ok == (forall|i: int|
            0 <= i < pairs.len() ==> (#[trigger] pairs[i]).0.as_text is Ok && pairs[i].1.as_text
                is Ok),
    decreases pairs.len(),
{
    if pairs.len() > 0 {
        let less = pairs.drop_last();
        lemma_all_text(less);
        assert(pairs[pairs.len() - 1] == pairs.last());
        if form_of(pairs) is Ok {
            assert forall|i: int| 0 <= i < pairs.len() implies (#[trigger] pairs[i]).0.as_text is Ok
                && pairs[i].1.as_text is Ok by {
                if i < less.len() {
                    assert(less[i] == pairs[i]);
                }
            }
        }
        if forall|i: int|
            0 <= i < pairs.len() ==> (#[trigger] pairs[i]).0.as_text is Ok && pairs[i].1.as_text
                is Ok {
            assert forall|i: int| 0 <= i < less.len() implies (#[trigger] less[i]).0.as_text is Ok
                && less[i].1.as_text is Ok by {
                assert(less[i] == pairs[i]);
            }
        }
    }
}

/// The error of form data is that of the first pair that is not text, and of its key before that of
/// its value.
pub proof fn law_first_pair_that_is_not_text(
    pairs: Vec<(ScriptValue, ScriptValue)>,
    r: Result<String, ScriptError>,
    i: int,
)
    requires
        call_ensures(formdata, (&pairs,), r),
        0 <= i < pairs@.len(),
        forall|j: int|
            0 <= j < i ==> (#[trigger] pairs@[j]).0.as_text is Ok && pairs@[j].1.as_text is Ok,
    ensures
        pairs@[i].0.as_text matches Err(m) ==> (r matches Err(ScriptError::Conversion(c)) && c@
            == m@),
        pairs@[i].0.as_text is Ok ==> (pairs@[i].1.as_text matches Err(m) ==> (r matches Err(
            ScriptError::Conversion(c),
        ) && c@ == m@)),
{
    let before = pairs@.take(i);
    let with = pairs@.take(i + 1);
    assert forall|j: int| 0 <= j < before.len() implies (#[trigger] before[j]).0.as_text is Ok
        && before[j].1.as_text is Ok by {
        assert(before[j] == pairs@[j]);
    }
    lemma_all_text(before);
    assert(with.drop_last() =~= before);
    assert(with.last() == pairs@[i]);
    if pairs@[i].0.as_text is Err || pairs@[i].1.as_text is Err {
        lemma_first_form_error_stays(pairs@, i + 1);
    }
}

} // verus!
