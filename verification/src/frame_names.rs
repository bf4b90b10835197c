//! The names of the image files that hold one QR code each: `N.png`, and the
//! number that such a name is sorted by.
use vstd::prelude::*;
use crate::text::chars_of;
use crate::digits::{
    all_digits, decimal, decimal_string, is_digit, lemma_decimal_value,
    lemma_parse_decimal_roundtrip, parse_u32_chars, parse_u32_spec,
};

verus! {

/// The extension of the image files.
pub open spec fn png_suffix() -> Seq<char> {
    seq!['.', 'p', 'n', 'g']
}

/// `s` with every occurrence of `pat` removed, scanning from the left and
/// taking the occurrences that do not overlap, as `str::replace(pat, "")` does.
pub open spec fn remove_all(s: Seq<char>, pat: Seq<char>) -> Seq<char>
    decreases s.len(),
{
    if s.len() == 0 {
        s
    } else if pat.len() > 0 && pat.len() <= s.len() && s.take(pat.len() as int) == pat {
        remove_all(s.skip(pat.len() as int), pat)
    } else {
        seq![s[0]] + remove_all(s.drop_first(), pat)
    }
}

/// The number by which a file name is sorted: the name with every `.png`
/// removed, read as a `u32`; `None` where that reading fails.
pub open spec fn frame_key(name: Seq<char>) -> Option<u32> {
    parse_u32_spec(remove_all(name, png_suffix()))
}

/// The name of the image file of number `n`: its decimal text and `.png`.
pub open spec fn frame_file_name_spec(n: u32) -> Seq<char> {
    decimal(n as nat) + png_suffix()
}

/// `s` with every `.png` removed.
pub fn strip_png(s: &[char]) -> (res: Vec<char>)
    ensures
        res@ == remove_all(s@, png_suffix()),
{
    let n = s.len();
    let mut res: Vec<char> = Vec::new();
    let mut i: usize = 0;
    assert(s@.skip(0) =~= s@);
    assert(res@ + remove_all(s@, png_suffix()) =~= remove_all(s@, png_suffix()));
    while i < n
        invariant
            n == s@.len(),
            i <= n,
            res@ + remove_all(s@.skip(i as int), png_suffix()) == remove_all(s@, png_suffix()),
        decreases n - i,
    {
        let ghost rest = s@.skip(i as int);
        if n - i >= 4 && s[i] == '.' && s[i + 1] == 'p' && s[i + 2] == 'n' && s[i + 3] == 'g' {
            assert(rest.take(4) =~= png_suffix());
            assert(rest.skip(4) =~= s@.skip(i + 4));
            i = i + 4;
        } else {
            assert(rest.take(4) != png_suffix() || rest.len() < 4) by {
                if rest.len() >= 4 && rest.take(4) == png_suffix() {
                    assert(rest.take(4)[0] == s@[i as int]);
                    assert(rest.take(4)[1] == s@[i + 1]);
                    assert(rest.take(4)[2] == s@[i + 2]);
                    assert(rest.take(4)[3] == s@[i + 3]);
                }
            }
            assert(rest.drop_first() =~= s@.skip(i + 1));
            let ghost old_res = res@;
            res.push(s[i]);
            assert(res@ =~= old_res + seq![rest[0]]);
            assert(seq![rest[0]] + remove_all(rest.drop_first(), png_suffix()) == remove_all(
                rest,
                png_suffix(),
            ));
            assert(res@ + remove_all(s@.skip(i + 1), png_suffix()) =~= old_res + (seq![rest[0]]
                + remove_all(rest.drop_first(), png_suffix())));
            i = i + 1;
        }
    }
    assert(s@.skip(n as int) =~= Seq::<char>::empty());
    assert(res@ + Seq::<char>::empty() =~= res@);
    res
}

/// The number by which the file `name` is sorted (see `frame_key`).
pub fn frame_sort_key(name: &str) -> (res: Option<u32>)
    ensures
        res == frame_key(name@),
{
    let cs = chars_of(name);
    let stripped = strip_png(cs.as_slice());
    parse_u32_chars(stripped.as_slice())
}

/// The name of the image file that holds frame or code number `n`: `N.png`.
pub fn frame_file_name(n: u32) -> (res: String)
    ensures
        res@ == frame_file_name_spec(n),
{
    let mut s = decimal_string(n);
    proof {
        reveal_strlit(".png");
    }
    s.append(".png");
    s
}

/// The path of the image file of code number `n` inside `folder`:
/// `folder/N.png`.
pub fn qr_file_path(folder: &str, n: u32) -> (res: String)
    ensures
        res@ == folder@ + seq!['/'] + frame_file_name_spec(n),
{
    let mut s = String::from_str(folder);
    proof {
        reveal_strlit("/");
    }
    s.append("/");
    let name = frame_file_name(n);
    s.append(name.as_str());
    assert(s@ =~= folder@ + seq!['/'] + frame_file_name_spec(n));
    s
}

/// Removing `.png` from a run of digits followed by `.png` leaves the digits.
proof fn lemma_remove_png_after_digits(s: Seq<char>)
    requires
        all_digits(s),
    ensures
        remove_all(s + png_suffix(), png_suffix()) == s,
    decreases s.len(),
{
    let t = s + png_suffix();
    if s.len() == 0 {
        assert(t =~= png_suffix());
        assert(t.take(4) =~= png_suffix());
        assert(t.skip(4) =~= Seq::<char>::empty());
        assert(remove_all(t, png_suffix()) == remove_all(t.skip(4), png_suffix()));
        assert(remove_all(Seq::<char>::empty(), png_suffix()) == Seq::<char>::empty());
        assert(s =~= Seq::<char>::empty());
    } else {
        assert(is_digit(s[0]));
        assert(t[0] == s[0]);
        assert(t.take(4)[0] == s[0]);
        assert(t.take(4) != png_suffix());
        assert(all_digits(s.drop_first()));
        lemma_remove_png_after_digits(s.drop_first());
        assert(t.drop_first() =~= s.drop_first() + png_suffix());
        assert(remove_all(t, png_suffix()) == seq![t[0]] + remove_all(t.drop_first(), png_suffix()));
        assert(seq![s[0]] + s.drop_first() =~= s);
    }
}

/// Law: the file of number `n` is sorted by `n`.
pub proof fn lemma_frame_key_of_file_name(n: u32)
    ensures
        frame_key(frame_file_name_spec(n)) == Some(n),
{
    lemma_decimal_value(n as nat);
    lemma_remove_png_after_digits(decimal(n as nat));
    lemma_parse_decimal_roundtrip(n);
}

} // verus!
