//! File names, and the figures that the activity log shows.

use crate::error::Errno;
use crate::paths::{extension_dot, file_name, path_file_name};
use crate::text::{
    chars_of, concat2, concat3, concat4, decimal, decimal_text, last_index, lemma_last_index,
    lemma_signed_decimal_injective, rfind_char, same_text, signed_decimal, signed_decimal_text, string_between,
};
use vstd::prelude::*;
use vstd::string::*;
use vstd::utf8::*;

verus! {

/// The stem that a conflict copy of `name` keeps.
pub open spec fn stem_of(name: Seq<char>) -> Seq<char> {
    match path_file_name(name) {
        None => name,
        Some(f) => match extension_dot(f) {
            None => f,
            Some(i) => f.take(i),
        },
    }
}

/// The extension that a conflict copy of `name` keeps.
pub open spec fn extension_of(name: Seq<char>) -> Option<Seq<char>> {
    match path_file_name(name) {
        None => None,
        Some(f) => match extension_dot(f) {
            None => None,
            Some(i) => Some(f.skip(i + 1)),
        },
    }
}

/// The name of a conflict copy: the mark goes between the stem and the
/// extension.
pub open spec fn conflict_copy(name: Seq<char>, stamp: int) -> Seq<char> {
    let marked = stem_of(name) + " (sync-conflict "@ + signed_decimal(stamp) + ")"@;
    match extension_of(name) {
        None => marked,
        Some(ext) => marked + "."@ + ext,
    }
}

/// A variant of `name` to fall back on when the remote already has that name.
/// The extension stays last.
pub fn conflict_name(name: &str, stamp: i64) -> (r: String)
    ensures
        r@ == conflict_copy(name@, stamp as int),
{
    let stamp_text = signed_decimal_text(stamp);
    let file = match file_name(name) {
        None => {
            return concat4(name, " (sync-conflict ", stamp_text.as_str(), ")");
        },
        Some(f) => f,
    };
    let v = chars_of(file.as_str());
    let n: usize = v.len();
    let dots = same_text(file.as_str(), "..");
    proof {
        lemma_last_index(file@, '.');
    }
    let dot: usize = match rfind_char(v.as_slice(), '.') {
        Some(i) => if dots {
            0
        } else {
            i
        },
        None => 0,
    };
    if dot == 0 {
        concat4(file.as_str(), " (sync-conflict ", stamp_text.as_str(), ")")
    } else {
        let stem = string_between(v.as_slice(), 0, dot);
        assert(dot < n);
        let ext = string_between(v.as_slice(), dot + 1, n);
        assert(stem@ =~= file@.take(dot as int));
        assert(ext@ =~= file@.skip(dot + 1));
        let marked = concat4(stem.as_str(), " (sync-conflict ", stamp_text.as_str(), ")");
        concat3(marked.as_str(), ".", ext.as_str())
    }
}

/// The ASCII lower-case form of a letter.
pub open spec fn ascii_lower(c: char) -> char {
    if 'A' <= c <= 'Z' {
        ((c as u32 + 32) as u32) as char
    } else {
        c
    }
}

/// The media type for a lower-case extension.
pub open spec fn media_type_of_extension(ext: Seq<char>) -> Seq<char> {
    if ext == "txt"@ || ext == "md"@ || ext == "log"@ {
        "text/plain"@
    } else if ext == "png"@ {
        "image/png"@
    } else if ext == "jpg"@ || ext == "jpeg"@ {
        "image/jpeg"@
    } else if ext == "gif"@ {
        "image/gif"@
    } else if ext == "pdf"@ {
        "application/pdf"@
    } else if ext == "json"@ {
        "application/json"@
    } else if ext == "html"@ || ext == "htm"@ {
        "text/html"@
    } else {
        "application/octet-stream"@
    }
}

/// The media type guessed from what follows the last dot of `name`.
pub open spec fn media_type(name: Seq<char>) -> Seq<char> {
    if last_index(name, '.') < 0 {
        "application/octet-stream"@
    } else {
        media_type_of_extension(
            name.skip(last_index(name, '.') + 1).map_values(|c: char| ascii_lower(c)),
        )
    }
}

fn lower(c: char) -> (r: char)
    ensures
        r == ascii_lower(c),
{
    if 'A' <= c && c <= 'Z' {
        ((c as u8) + 32u8) as char
    } else {
        c
    }
}

/// A coarse media type guessed from a file name's extension, whatever its case.
pub fn media_type_for(name: &str) -> (r: String)
    ensures
        r@ == media_type(name@),
{
    let v = chars_of(name);
    let n: usize = v.len();
    let dot: usize = match rfind_char(v.as_slice(), '.') {
        None => {
            return "application/octet-stream".to_owned();
        },
        Some(i) => i,
    };
    assert(dot < n);
    let ghost tail = name@.skip(dot + 1);
    let ghost f = |c: char| ascii_lower(c);
    let mut ext = String::new();
    let mut i: usize = dot + 1;
    while i < v.len()
        invariant
            dot + 1 <= i <= v@.len(),
            v@ == name@,
            tail == name@.skip(dot + 1),
            f == (|c: char| ascii_lower(c)),
            ext@ == tail.take(i - dot - 1).map_values(f),
        decreases v@.len() - i,
    {
        ext.push(lower(v[i]));
        i = i + 1;
        assert(tail.take(i - dot - 1) =~= tail.take(i - dot - 2).push(v@[i - 1]));
        assert(ext@ =~= tail.take(i - dot - 1).map_values(f));
    }
    assert(tail.take(i - dot - 1) =~= tail);
    let e = ext.as_str();
    if same_text(e, "txt") || same_text(e, "md") || same_text(e, "log") {
        "text/plain".to_owned()
    } else if same_text(e, "png") {
        "image/png".to_owned()
    } else if same_text(e, "jpg") || same_text(e, "jpeg") {
        "image/jpeg".to_owned()
    } else if same_text(e, "gif") {
        "image/gif".to_owned()
    } else if same_text(e, "pdf") {
        "application/pdf".to_owned()
    } else if same_text(e, "json") {
        "application/json".to_owned()
    } else if same_text(e, "html") || same_text(e, "htm") {
        "text/html".to_owned()
    } else {
        "application/octet-stream".to_owned()
    }
}

/// Calls `String::from_utf8`: the text that `bytes` encode, exactly when they
/// are valid UTF-8.
#[verifier::external_body]
fn utf8_text(bytes: Vec<u8>) -> (r: Option<String>)
    ensures
        match r {
            Some(s) => valid_utf8(bytes@) && encode_utf8(s@) == bytes@,
            None => !valid_utf8(bytes@),
        },
{
    String::from_utf8(bytes).ok()
}

/// Longest single path component, in bytes.
pub const MAX_NAME_LEN: usize = 255;

/// Turn one kernel pathname component into the name that Drive accepts.
pub fn fuse_name(name: Vec<u8>) -> (r: Result<String, Errno>)
    ensures
        match r {
            Ok(s) => 0 < name@.len() <= MAX_NAME_LEN && name@ != seq![46u8] && name@ != seq![
                46u8,
                46u8,
            ] && valid_utf8(name@) && encode_utf8(s@) == name@,
            Err(Errno::Nametoolong) => name@.len() > MAX_NAME_LEN,
            Err(Errno::Inval) => name@.len() == 0 || name@ == seq![46u8] || name@ == seq![
                46u8,
                46u8,
            ],
            Err(Errno::Ilseq) => 0 < name@.len() <= MAX_NAME_LEN && name@ != seq![46u8]
                && name@ != seq![46u8, 46u8] && !valid_utf8(name@),
            Err(_) => false,
        },
{
    if name.len() > MAX_NAME_LEN {
        return Err(Errno::Nametoolong);
    }
    let dot = name.len() == 1 && name[0] == 46;
    let dots = name.len() == 2 && name[0] == 46 && name[1] == 46;
    assert(dot == (name@ =~= seq![46u8]));
    assert(dots == (name@ =~= seq![46u8, 46u8]));
    if name.len() == 0 || dot || dots {
        return Err(Errno::Inval);
    }
    match utf8_text(name) {
        Some(s) => Ok(s),
        None => Err(Errno::Ilseq),
    }
}

/// Whether a name given by a front-end can be a name at all.
pub open spec fn usable_name(name: Seq<char>) -> bool {
    name.len() > 0 && !name.contains('/')
}

/// Whether a name given by a front-end can be a name at all: it is not empty
/// and holds no separator.
pub fn name_is_usable(name: &str) -> (r: bool)
    ensures
        r == usable_name(name@),
{
    !name.is_empty() && !crate::text::contains_char(name, '/')
}

/// `n` with a noun in the right number.
pub fn count_noun(n: usize, one: &str, many: &str) -> (r: String)
    ensures
        r@ == decimal(n as nat) + " "@ + (if n == 1 {
            one@
        } else {
            many@
        }),
{
    let count = decimal_text(n as u64);
    concat3(
        count.as_str(),
        " ",
        if n == 1 {
            one
        } else {
            many
        },
    )
}

/// `num / den` rounded to the nearest integer, halves to the even one.
pub open spec fn half_even(num: nat, den: nat) -> nat
    recommends
        den > 0,
{
    let q = num / den;
    let r = num % den;
    if 2 * r > den || (2 * r == den && q % 2 == 1) {
        q + 1
    } else {
        q
    }
}

/// Two to the power `k`, for `k` up to 64.
pub open spec fn two_to(k: nat) -> nat
    decreases k,
{
    if k == 0 {
        1
    } else {
        2 * two_to((k - 1) as nat)
    }
}

/// How many low bits of `n` a significand of 53 bits cannot hold.
pub open spec fn dropped_bits(n: nat) -> nat
    decreases n,
{
    if n < 0x20_0000_0000_0000 {
        0
    } else {
        1 + dropped_bits(n / 2)
    }
}

/// `n` rounded to 53 significant bits, halves to even.
pub open spec fn significant(n: nat) -> nat {
    let step = two_to(dropped_bits(n));
    half_even(n, step) * step
}

/// The largest power of 1024 among the units that `n` reaches.
pub open spec fn unit_power(n: nat) -> nat {
    if n < 1024 {
        0
    } else if n < 1024 * 1024 {
        1
    } else if n < 1024 * 1024 * 1024 {
        2
    } else if n < 1024 * 1024 * 1024 * 1024 {
        3
    } else {
        4
    }
}

/// The size of a unit in bytes.
pub open spec fn unit_size(power: nat) -> nat {
    if power == 0 {
        1
    } else if power == 1 {
        1024
    } else if power == 2 {
        1024 * 1024
    } else if power == 3 {
        1024 * 1024 * 1024
    } else {
        1024 * 1024 * 1024 * 1024
    }
}

/// The label of a unit.
pub open spec fn unit_label(power: nat) -> Seq<char> {
    if power == 0 {
        "B"@
    } else if power == 1 {
        "KB"@
    } else if power == 2 {
        "MB"@
    } else if power == 3 {
        "GB"@
    } else {
        "TB"@
    }
}

/// `tenths` tenths, with one decimal place.
pub open spec fn one_decimal(tenths: nat) -> Seq<char> {
    decimal(tenths / 10) + "."@ + decimal(tenths % 10)
}

/// How a number of bytes is shown: whole bytes below 1024, otherwise the value
/// in the largest fitting unit to one decimal place.
pub open spec fn shown_bytes(bytes: nat) -> Seq<char> {
    let b = significant(bytes);
    let p = unit_power(b);
    if p == 0 {
        decimal(bytes) + " B"@
    } else {
        one_decimal(half_even(10 * b, unit_size(p))) + " "@ + unit_label(p)
    }
}

fn one_decimal_text(tenths: u64) -> (r: String)
    ensures
        r@ == one_decimal(tenths as nat),
{
    let whole = decimal_text(tenths / 10);
    let part = decimal_text(tenths % 10);
    concat3(whole.as_str(), ".", part.as_str())
}

fn divide_half_even(num: u128, den: u128) -> (r: u128)
    requires
        den > 0,
        2 * den <= u128::MAX,
        num < u128::MAX,
    ensures
        r == half_even(num as nat, den as nat),
        r <= num / den + 1,
{
    let q: u128 = num / den;
    let m: u128 = num % den;
    assert(q <= num) by (nonlinear_arith)
        requires
            q == num / den,
            den > 0,
    ;
    if 2 * m > den || (2 * m == den && q % 2 == 1) {
        q + 1
    } else {
        q
    }
}

proof fn lemma_dropped_bits(n: nat)
    ensures
        n <= u64::MAX ==> dropped_bits(n) <= 11,
        n < 0x20_0000_0000_0000 * two_to(dropped_bits(n)),
        two_to(dropped_bits(n)) >= 1,
        dropped_bits(n) > 0 ==> n >= 0x20_0000_0000_0000,
    decreases n,
{
    if n >= 0x20_0000_0000_0000 {
        lemma_dropped_bits(n / 2);
        if n <= u64::MAX {
            reveal_with_fuel(two_to, 12);
            lemma_dropped_small(n, 11);
        }
    }
}

proof fn lemma_dropped_small(n: nat, k: nat)
    requires
        n < 0x20_0000_0000_0000 * two_to(k),
    ensures
        dropped_bits(n) <= k,
    decreases k,
{
    reveal_with_fuel(two_to, 2);
    if n >= 0x20_0000_0000_0000 {
        if k == 0 {
            assert(two_to(0) == 1);
        } else {
            assert(two_to(k) == 2 * two_to((k - 1) as nat));
            assert(n / 2 < 0x20_0000_0000_0000 * two_to((k - 1) as nat));
            lemma_dropped_small(n / 2, (k - 1) as nat);
        }
    }
}

proof fn lemma_half_even_bound(num: nat, den: nat, bound: nat)
    requires
        den > 0,
        num <= bound * den,
    ensures
        half_even(num, den) <= bound,
{
    let q = num / den;
    let r = num % den;
    vstd::arithmetic::div_mod::lemma_fundamental_div_mod(num as int, den as int);
    assert(num == den * q + r);
    assert(q <= bound) by (nonlinear_arith)
        requires
            num == den * q + r,
            num <= bound * den,
            r >= 0,
            den > 0,
    ;
    if q == bound {
        assert(r == 0) by (nonlinear_arith)
            requires
                num == den * q + r,
                num <= bound * den,
                q == bound,
                r >= 0,
        ;
    }
}

fn significant_bits(n: u64) -> (r: u128)
    ensures
        r == significant(n as nat),
        r <= 0x1_0000_0000_0000_0000u128,
{
    let mut m: u64 = n;
    let mut step: u128 = 1;
    let ghost mut k: nat = 0;
    proof {
        lemma_dropped_bits(n as nat);
        reveal_with_fuel(two_to, 13);
    }
    while m >= 0x20_0000_0000_0000
        invariant
            dropped_bits(n as nat) == k + dropped_bits(m as nat),
            dropped_bits(n as nat) <= 11,
            step == two_to(k),
            step <= 2048,
            k <= 11,
            step * m <= n,
            n < 0x20_0000_0000_0000 * two_to(dropped_bits(n as nat)),
        decreases m,
    {
        proof {
            reveal_with_fuel(two_to, 13);
            assert(dropped_bits(m as nat) >= 1);
            assert(k <= 10);
            assert(two_to(k + 1) == 2 * two_to(k));
            lemma_two_to_small(k + 1);
            let half = m / 2;
            assert(2 * step * half <= step * m) by (nonlinear_arith)
                requires
                    half == m / 2,
                    step >= 0,
            ;
            k = k + 1;
        }
        m = m / 2;
        step = step * 2;
    }
    let q = divide_half_even(n as u128, step);
    proof {
        assert(dropped_bits(m as nat) == 0);
        lemma_dropped_bits(n as nat);
        lemma_half_even_bound(n as nat, step as nat, 0x20_0000_0000_0000);
        assert(q * step <= 0x20_0000_0000_0000 * step) by (nonlinear_arith)
            requires
                q <= 0x20_0000_0000_0000,
                step >= 0,
        ;
    }
    q * step
}

proof fn lemma_two_to_small(k: nat)
    requires
        k <= 11,
    ensures
        1 <= two_to(k) <= 2048,
{
    reveal_with_fuel(two_to, 13);
}

/// Bytes rendered with a binary unit and one decimal place, for the activity
/// log. Uses 1024-based steps but the shorter labels.
pub fn human_bytes(bytes: u64) -> (r: String)
    ensures
        r@ == shown_bytes(bytes as nat),
{
    let b = significant_bits(bytes);
    if b < 1024 {
        let digits = decimal_text(bytes);
        return concat2(digits.as_str(), " B");
    }
    let (size, label): (u128, &str) = if b < 1024 * 1024 {
        (1024, "KB")
    } else if b < 1024 * 1024 * 1024 {
        (1024 * 1024, "MB")
    } else if b < 1024 * 1024 * 1024 * 1024 {
        (1024 * 1024 * 1024, "GB")
    } else {
        (1024 * 1024 * 1024 * 1024, "TB")
    };
    proof {
        assert(10 * b <= 0x1000_0000_0000 * size);
        lemma_half_even_bound((10 * b) as nat, size as nat, 0x1000_0000_0000);
    }
    let tenths = divide_half_even(10 * b, size);
    let number = one_decimal_text(tenths as u64);
    concat3(number.as_str(), " ", label)
}

/// A number of bytes in mebibytes, to one decimal place.
pub open spec fn mebibytes(bytes: nat) -> Seq<char> {
    one_decimal(half_even(10 * significant(bytes), 1024 * 1024))
}

/// A number of bytes in mebibytes, to one decimal place.
pub fn mebibytes_text(bytes: u64) -> (r: String)
    ensures
        r@ == mebibytes(bytes as nat),
{
    let b = significant_bits(bytes);
    proof {
        lemma_half_even_bound((10 * b) as nat, 1024 * 1024, 0xA000_0000_0000);
    }
    let tenths = divide_half_even(10 * b, 1024 * 1024);
    one_decimal_text(tenths as u64)
}

/// How an elapsed time is shown: `820ms`, `43s` or `2m 5s`.
pub open spec fn shown_duration(secs: nat, subsec_millis: nat) -> Seq<char> {
    if secs == 0 {
        decimal(subsec_millis) + "ms"@
    } else if secs < 60 {
        decimal(secs) + "s"@
    } else {
        decimal(secs / 60) + "m "@ + decimal(secs % 60) + "s"@
    }
}

/// A compact elapsed-time label for the activity log.
pub fn human_duration(secs: u64, subsec_millis: u32) -> (r: String)
    ensures
        r@ == shown_duration(secs as nat, subsec_millis as nat),
{
    if secs == 0 {
        let n = decimal_text(subsec_millis as u64);
        concat2(n.as_str(), "ms")
    } else if secs < 60 {
        let n = decimal_text(secs);
        concat2(n.as_str(), "s")
    } else {
        let m = decimal_text(secs / 60);
        let n = decimal_text(secs % 60);
        concat4(m.as_str(), "m ", n.as_str(), "s")
    }
}

/// A name is its stem, and its extension behind a dot if it has one; a stem is never empty,
/// and an extension has no dot.
pub proof fn law_names_are_stem_and_extension(name: Seq<char>)
    requires
        path_file_name(name) is Some,
    ensures
        extension_of(name) is None ==> stem_of(name) == path_file_name(name)->0,
        extension_of(name) is Some ==> path_file_name(name)->0 == stem_of(name) + "."@
            + extension_of(name)->0 && stem_of(name).len() > 0 && !(extension_of(name)->0).contains(
            '.',
        ),
{
    let f = path_file_name(name)->0;
    reveal_strlit(".");
    lemma_last_index(f, '.');
    match extension_dot(f) {
        Some(i) => {
            let e = f.skip(i + 1);
            assert(f[i] == '.');
            assert(f =~= f.take(i) + "."@ + e);
            assert forall|k: int| 0 <= k < e.len() implies e[k] != '.' by {
                assert(e[k] == f[i + 1 + k]);
            }
        },
        None => {},
    }
}

/// The name of a conflict copy begins with the stem of the name it is a copy of, keeps its
/// extension, tells the time, and is longer: it never is the name itself.
pub proof fn law_conflict_copies_keep_the_name(name: Seq<char>, stamp: int)
    requires
        path_file_name(name) == Some(name),
    ensures
        stem_of(name).is_prefix_of(conflict_copy(name, stamp)),
        (stem_of(name) + " (sync-conflict "@ + signed_decimal(stamp) + ")"@).is_prefix_of(
            conflict_copy(name, stamp),
        ),
        extension_of(name) is Some ==> ("."@ + extension_of(name)->0).is_suffix_of(
            conflict_copy(name, stamp),
        ),
        conflict_copy(name, stamp).len() > name.len(),
        conflict_copy(name, stamp) != name,
{
    law_names_are_stem_and_extension(name);
    reveal_strlit(" (sync-conflict ");
    let marked = stem_of(name) + " (sync-conflict "@ + signed_decimal(stamp) + ")"@;
    assert(stem_of(name).is_prefix_of(marked));
    match extension_of(name) {
        Some(ext) => {
            assert(conflict_copy(name, stamp) =~= marked + ("."@ + ext));
        },
        None => {},
    }
}

/// A quotient is rounded to the nearest whole number, and halfway to the even one.
pub proof fn law_rounding_is_to_the_nearest(num: nat, den: nat)
    requires
        den > 0,
    ensures
        2 * num <= 2 * half_even(num, den) * den + den,
        2 * half_even(num, den) * den <= 2 * num + den,
        (2 * num == 2 * half_even(num, den) * den + den || 2 * half_even(num, den) * den == 2 * num
            + den) ==> half_even(num, den) % 2 == 0,
        num % den == 0 ==> half_even(num, den) * den == num,
{
    let q = num / den;
    let r = num % den;
    assert(num == q * den + r && 0 <= r < den) by (nonlinear_arith)
        requires
            den > 0,
            q == num / den,
            r == num % den,
    ;
    assert((q + 1) * den == q * den + den) by (nonlinear_arith);
    assert(2 * q * den == 2 * (q * den)) by (nonlinear_arith);
    assert(2 * (q + 1) * den == 2 * ((q + 1) * den)) by (nonlinear_arith);
}

proof fn lemma_two_to(k: nat)
    ensures
        two_to(k) > 0,
    decreases k,
{
    if k > 0 {
        lemma_two_to((k - 1) as nat);
    }
}

/// A count that a double holds is shown exactly, and any other is shown as the nearest that
/// one holds: fifty-three bits are kept.
pub proof fn law_counts_keep_their_leading_bits(n: nat)
    ensures
        n < 0x20_0000_0000_0000 ==> significant(n) == n,
        n >= 0x20_0000_0000_0000 ==> 0x10_0000_0000_0000 * two_to(dropped_bits(n)) <= n
            < 0x20_0000_0000_0000 * two_to(dropped_bits(n)),
        2 * n <= 2 * significant(n) + two_to(dropped_bits(n)),
        2 * significant(n) <= 2 * n + two_to(dropped_bits(n)),
    decreases n,
{
    let step = two_to(dropped_bits(n));
    lemma_two_to(dropped_bits(n));
    law_rounding_is_to_the_nearest(n, step);
    assert(2 * half_even(n, step) * step == 2 * (half_even(n, step) * step)) by (nonlinear_arith);
    if n >= 0x20_0000_0000_0000 {
        let half = n / 2;
        let s = two_to(dropped_bits(half));
        law_counts_keep_their_leading_bits(half);
        assert(dropped_bits(n) == 1 + dropped_bits(half));
        assert(step == 2 * s);
        if half < 0x20_0000_0000_0000 {
            assert(dropped_bits(half) == 0);
            assert(s == 1);
        } else {
            assert(0x10_0000_0000_0000 * s <= half < 0x20_0000_0000_0000 * s);
        }
    } else {
        assert(step == 1);
    }
}

/// A size is shown in the largest unit that it fills, each a thousand and twenty-four of the
/// one before it.
pub proof fn law_units_fit_their_size(n: nat, power: nat)
    ensures
        n >= 1 ==> unit_size(unit_power(n)) <= n,
        unit_power(n) < 4 ==> n < 1024 * unit_size(unit_power(n)),
        unit_power(n) <= 4,
        power < 4 ==> unit_size(power + 1) == 1024 * unit_size(power),
        unit_size(0) == 1,
{
}

/// A size below the first unit is shown in full; any other is shown in tenths of its unit,
/// rounded to the nearest.
pub proof fn law_sizes_are_shown_to_the_tenth(bytes: nat)
    ensures
        bytes < 1024 ==> shown_bytes(bytes) == decimal(bytes) + " B"@,
        1024 <= bytes < 0x20_0000_0000_0000 ==> exists|tenths: nat|
            #![trigger one_decimal(tenths)]
            shown_bytes(bytes) == one_decimal(tenths) + " "@ + unit_label(unit_power(bytes)) && 20
                * bytes <= 2 * tenths * unit_size(unit_power(bytes)) + unit_size(unit_power(bytes))
                && 2 * tenths * unit_size(unit_power(bytes)) <= 20 * bytes + unit_size(
                unit_power(bytes),
            ),
{
    law_counts_keep_their_leading_bits(bytes);
    if 1024 <= bytes < 0x20_0000_0000_0000 {
        let unit = unit_size(unit_power(bytes));
        law_rounding_is_to_the_nearest(10 * bytes, unit);
        let tenths = half_even(10 * bytes, unit);
        assert(shown_bytes(bytes) == one_decimal(tenths) + " "@ + unit_label(unit_power(bytes)));
    }
}

/// The units have different labels.
pub proof fn law_unit_labels_differ(a: nat, b: nat)
    requires
        a <= 4,
        b <= 4,
        a != b,
    ensures
        unit_label(a) != unit_label(b),
{
    reveal_strlit("B");
    reveal_strlit("KB");
    reveal_strlit("MB");
    reveal_strlit("GB");
    reveal_strlit("TB");
    assert("B"@[0] == 'B');
    assert("KB"@[0] == 'K');
    assert("MB"@[0] == 'M');
    assert("GB"@[0] == 'G');
    assert("TB"@[0] == 'T');
}

/// A time is shown in minutes and the seconds over, where it fills a minute.
pub proof fn law_durations_are_shown_in_minutes(minutes: nat, secs: nat, millis: nat)
    requires
        secs < 60,
    ensures
        minutes > 0 ==> shown_duration(minutes * 60 + secs, millis) == decimal(minutes) + "m "@
            + decimal(secs) + "s"@,
        secs > 0 ==> shown_duration(secs, millis) == decimal(secs) + "s"@,
        shown_duration(0, millis) == decimal(millis) + "ms"@,
{
}

/// What a file holds is told by what stands behind the last dot of its name, whatever stands
/// before it; a name without a dot tells nothing.
pub proof fn law_media_type_is_told_by_the_extension(a: Seq<char>, b: Seq<char>, ext: Seq<char>)
    requires
        !ext.contains('.'),
    ensures
        media_type(a + seq!['.'] + ext) == media_type(b + seq!['.'] + ext),
        media_type(ext) == "application/octet-stream"@,
        media_type(a + seq!['.'] + ext) == media_type_of_extension(
            ext.map_values(|c: char| ascii_lower(c)),
        ),
{
    lemma_tail(a, ext);
    lemma_tail(b, ext);
    lemma_last_index(ext, '.');
    if last_index(ext, '.') >= 0 {
        assert(ext.contains(ext[last_index(ext, '.')]));
    }
}

proof fn lemma_tail(a: Seq<char>, ext: Seq<char>)
    requires
        !ext.contains('.'),
    ensures
        last_index(a + seq!['.'] + ext, '.') == a.len(),
        (a + seq!['.'] + ext).skip(a.len() as int + 1) == ext,
{
    let s = a + seq!['.'] + ext;
    lemma_last_index(s, '.');
    assert(s[a.len() as int] == '.');
    let i = last_index(s, '.');
    if i > a.len() {
        assert(s[i] == ext[i - a.len() - 1]);
        assert(ext.contains(ext[i - a.len() - 1]));
    }
    assert(s.skip(a.len() as int + 1) =~= ext);
}

/// A letter is told whatever its case, and only letters change.
pub proof fn law_ascii_case_is_ignored(c: char)
    ensures
        'A' <= c <= 'Z' ==> ascii_lower(c) as u32 == c as u32 + 32,
        !('A' <= c <= 'Z') ==> ascii_lower(c) == c,
        ascii_lower(ascii_lower(c)) == ascii_lower(c),
{
}

/// Copies made at different times have different names.
pub proof fn law_conflict_copies_differ(name: Seq<char>, a: int, b: int)
    requires
        conflict_copy(name, a) == conflict_copy(name, b),
    ensures
        a == b,
{
    let head = stem_of(name) + " (sync-conflict "@;
    let tail = match extension_of(name) {
        None => ")"@,
        Some(ext) => ")"@ + "."@ + ext,
    };
    let x = signed_decimal(a);
    let y = signed_decimal(b);
    assert(conflict_copy(name, a) =~= head + x + tail);
    assert(conflict_copy(name, b) =~= head + y + tail);
    let full = head + x + tail;
    assert(x.len() == y.len());
    assert(full.subrange(head.len() as int, (head.len() + x.len()) as int) =~= x);
    assert((head + y + tail).subrange(head.len() as int, (head.len() + y.len()) as int) =~= y);
    lemma_signed_decimal_injective(a, b);
}

/// A name can be used where it is not empty and stays in its folder.
pub proof fn law_usable_names_stay_in_their_folder(name: Seq<char>)
    ensures
        usable_name(name) <==> name.len() > 0 && forall|i: int|
            0 <= i < name.len() ==> #[trigger] name[i] != '/',
{
    if name.len() > 0 && !name.contains('/') {
        assert forall|i: int| 0 <= i < name.len() implies #[trigger] name[i] != '/' by {
            assert(name.contains(name[i]));
        }
    }
}

/// Mebibytes are told in tenths, rounded to the nearest.
pub proof fn law_mebibytes_are_told_to_the_tenth(bytes: nat)
    requires
        bytes < 0x20_0000_0000_0000,
    ensures
        exists|tenths: nat|
            mebibytes(bytes) == #[trigger] one_decimal(tenths) && 20 * bytes <= 2 * tenths * 1048576
                + 1048576 && 2 * tenths * 1048576 <= 20 * bytes + 1048576,
{
    law_counts_keep_their_leading_bits(bytes);
    law_rounding_is_to_the_nearest(10 * bytes, 1048576);
    let tenths = half_even(10 * bytes, 1048576);
    assert(mebibytes(bytes) == one_decimal(tenths));
}

/// Tenths are told as whole ones and one digit behind a point.
pub proof fn law_tenths_are_told_behind_a_point(whole: nat, tenth: nat)
    requires
        tenth < 10,
    ensures
        one_decimal(10 * whole + tenth) == decimal(whole) + "."@ + decimal(tenth),
{
}

/// The extensions that tell what a file holds, and what they tell.
pub proof fn law_known_extensions(ext: Seq<char>)
    ensures
        ext == "txt"@ || ext == "md"@ || ext == "log"@ ==> media_type_of_extension(ext)
            == "text/plain"@,
        ext == "html"@ || ext == "htm"@ ==> media_type_of_extension(ext) == "text/html"@,
        ext == "jpg"@ || ext == "jpeg"@ ==> media_type_of_extension(ext) == "image/jpeg"@,
        ext == "png"@ ==> media_type_of_extension(ext) == "image/png"@,
        ext == "gif"@ ==> media_type_of_extension(ext) == "image/gif"@,
        ext == "pdf"@ ==> media_type_of_extension(ext) == "application/pdf"@,
        ext == "json"@ ==> media_type_of_extension(ext) == "application/json"@,
        media_type_of_extension(ext) != "application/octet-stream"@ ==> ext.len() == 2 || ext.len()
            == 3 || ext.len() == 4,
        ext.len() > 4 ==> media_type_of_extension(ext) == "application/octet-stream"@,
{
    reveal_strlit("txt");
    reveal_strlit("md");
    reveal_strlit("log");
    reveal_strlit("html");
    reveal_strlit("htm");
    reveal_strlit("jpg");
    reveal_strlit("jpeg");
    reveal_strlit("png");
    reveal_strlit("gif");
    reveal_strlit("pdf");
    reveal_strlit("json");
    assert("txt"@[0] == 't' && "md"@[0] == 'm' && "log"@[0] == 'l' && "html"@[0] == 'h'
        && "htm"@[0] == 'h' && "jpg"@[0] == 'j' && "jpeg"@[0] == 'j' && "png"@[0] == 'p'
        && "gif"@[0] == 'g' && "pdf"@[0] == 'p' && "json"@[0] == 'j');
    assert("jpg"@[1] == 'p' && "jpeg"@[1] == 'p' && "png"@[1] == 'n' && "pdf"@[1] == 'd'
        && "json"@[1] == 's');
    assert("txt"@.len() == 3 && "md"@.len() == 2 && "log"@.len() == 3 && "html"@.len() == 4
        && "htm"@.len() == 3 && "jpg"@.len() == 3 && "jpeg"@.len() == 4 && "png"@.len() == 3
        && "gif"@.len() == 3 && "pdf"@.len() == 3 && "json"@.len() == 4);
}

} // verus!
