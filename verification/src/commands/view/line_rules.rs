//! How lines, sizes and ranges are written and read.
use vstd::prelude::*;

use crate::commands::view::lines::{
    attribute_entry, begins, digits_value, double_step, export_range, half_even, info_line, initial_of,
    number_of, padded, severity_color, size_parts, standard_entry, standard_name,
    tenths_text, as_double,
};
use crate::commands::view::style::Color;
use crate::commands::view::text::{cut, dump_from, fitted, flattened, spaced_hex};
use crate::commands::view::types::raised;
use crate::text::chars::{is_ascii_digit, is_control, is_whitespace};
use crate::text::numbers::{decimal, hex_byte, hex_padded};
use crate::text::readback::{
    hex_number_read, hex_value, law_decimal_reads_back, law_padded_hex_reads_back, number_read,
};
use crate::text::seqs::{
    contains_seq, first_index, lemma_first_index, occurs_at, trim, trim_end_where, trim_start,
    trim_start_where,
};
use crate::exporter::lowered;

verus! {

proof fn lemma_value_is_read(s: Seq<char>)
    requires
        forall|i: int| 0 <= i < s.len() ==> '0' <= #[trigger] s[i] <= '9',
    ensures
        digits_value(s) == number_read(s),
    decreases s.len(),
{
    if s.len() > 0 {
        let init = s.drop_last();
        assert forall|i: int| 0 <= i < init.len() implies '0' <= #[trigger] init[i] <= '9' by {
            assert('0' <= s[i] <= '9');
        }
        lemma_value_is_read(init);
        assert('0' <= s[s.len() - 1] <= '9');
    }
}

proof fn lemma_trimmed(s: Seq<char>)
    requires
        s.len() > 0,
        !is_whitespace(s.first()),
        !is_whitespace(s.last()),
    ensures
        trim(s) == s,
{
    let f = |c: char| is_whitespace(c);
    assert(!f(s.first()));
    assert(trim_start_where(s, f) == s);
    assert(trim_start(s) == s);
    assert(!f(s.last()));
    assert(trim_end_where(s, f) == s);
}

proof fn lemma_number(n: nat)
    requires
        n <= usize::MAX,
    ensures
        number_of(decimal(n)) == Some(n),
        trim(decimal(n)) == decimal(n),
        decimal(n).len() > 0,
        forall|i: int| 0 <= i < decimal(n).len() ==> '0' <= #[trigger] decimal(n)[i] <= '9',
{
    let s = decimal(n);
    law_decimal_reads_back(n);
    lemma_value_is_read(s);
    assert forall|i: int| 0 <= i < s.len() implies is_ascii_digit(#[trigger] s[i]) by {
        assert('0' <= s[i] <= '9');
    }
    assert('0' <= s[0] <= '9');
    assert('0' <= s[s.len() - 1] <= '9');
    lemma_trimmed(s);
}

/// The digits of a number are read as the number, with a plus sign or without;
/// a text without digits is no number.
pub proof fn law_numbers_are_read(n: nat)
    requires
        n <= usize::MAX,
    ensures
        number_of(decimal(n)) == Some(n),
        number_of(seq!['+'] + decimal(n)) == Some(n),
        number_of(Seq::empty()) is None,
{
    lemma_number(n);
    assert((seq!['+'] + decimal(n)).skip(1) =~= decimal(n));
    law_decimal_reads_back(n);
    assert('0' <= decimal(n)[0]);
}

proof fn lemma_not_a_word(s: Seq<char>)
    requires
        s.len() > 0,
        '1' <= s[0] <= '9',
    ensures
        lowered(s) != "all"@,
        lowered(s) != "a"@,
        lowered(s) != "current"@,
        lowered(s) != "c"@,
        s != "0"@,
{
    reveal_strlit("all");
    reveal_strlit("a");
    reveal_strlit("current");
    reveal_strlit("c");
    reveal_strlit("0");
    assert(lowered(s)[0] == s[0]);
    assert("all"@[0] == 'a' && "a"@[0] == 'a' && "current"@[0] == 'c' && "c"@[0] == 'c' && "0"@[0]
        == '0');
}

/// An amount asks for the first so many records, as far as there are some.
pub proof fn law_amounts_ask_for_the_first_records(n: nat, total: nat, selected: nat)
    requires
        1 <= n <= usize::MAX,
    ensures
        export_range(decimal(n), total, selected) == Ok::<(nat, nat), Seq<char>>(
            (
                0,
                if n <= total {
                    n
                } else {
                    total
                },
            ),
        ),
{
    let s = decimal(n);
    lemma_number(n);
    law_decimal_reads_back(n);
    assert('0' <= s[0] <= '9');
    lemma_not_a_word(s);
    crate::dedup::lemma_first_index_hit(s, '-');
    if first_index(s, '-') < s.len() {
        assert('0' <= s[first_index(s, '-')] <= '9');
    }
}

/// Two numbers with a hyphen between them ask for the records from the first to
/// the second, both counted from one and both with, as far as there are some.
pub proof fn law_ranges_ask_for_what_they_span(from: nat, to: nat, total: nat, selected: nat)
    requires
        1 <= from <= to <= usize::MAX,
    ensures
        export_range(decimal(from) + seq!['-'] + decimal(to), total, selected) == Ok::<
            (nat, nat),
            Seq<char>,
        >(
            if from > total {
                (total, total)
            } else if to <= total {
                ((from - 1) as nat, to)
            } else {
                ((from - 1) as nat, total)
            },
        ),
{
    let a = decimal(from);
    let b = decimal(to);
    let s = a + seq!['-'] + b;
    lemma_number(from);
    lemma_number(to);
    law_decimal_reads_back(from);
    law_decimal_reads_back(to);
    assert('0' <= a[0] <= '9');
    assert(s[0] == a[0]);
    assert('0' <= b[b.len() - 1] <= '9');
    assert(s[s.len() - 1] == b[b.len() - 1]);
    lemma_trimmed(s);
    lemma_not_a_word(s);
    assert forall|i: int| 0 <= i < a.len() implies s[i] != '-' by {
        assert(s[i] == a[i]);
        assert('0' <= a[i] <= '9');
    }
    lemma_first_index(s, '-', a.len() as int);
    assert(s.take(a.len() as int) =~= a);
    assert(s.skip(a.len() + 1int) =~= b);
}

/// The words of a range, in any case: `all` and `a` ask for everything,
/// `current`, `c` and `0` for the selected record.
pub proof fn law_words_ask_for_all_or_one(total: nat, selected: nat)
    requires
        selected < total,
    ensures
        export_range("all"@, total, selected) == Ok::<(nat, nat), Seq<char>>((0, total)),
        export_range("a"@, total, selected) == Ok::<(nat, nat), Seq<char>>((0, total)),
        export_range("ALL"@, total, selected) == Ok::<(nat, nat), Seq<char>>((0, total)),
        export_range("current"@, total, selected) == Ok::<(nat, nat), Seq<char>>(
            (selected, selected + 1),
        ),
        export_range("c"@, total, selected) == Ok::<(nat, nat), Seq<char>>(
            (selected, selected + 1),
        ),
        export_range("0"@, total, selected) == Ok::<(nat, nat), Seq<char>>(
            (selected, selected + 1),
        ),
        export_range(""@, total, selected) is Err,
{
    reveal_strlit("all");
    reveal_strlit("ALL");
    reveal_strlit("a");
    reveal_strlit("current");
    reveal_strlit("c");
    reveal_strlit("0");
    reveal_strlit("");
    lemma_trimmed("all"@);
    lemma_trimmed("ALL"@);
    lemma_trimmed("a"@);
    lemma_trimmed("current"@);
    lemma_trimmed("c"@);
    lemma_trimmed("0"@);
    assert(lowered("all"@) =~= "all"@);
    assert(lowered("ALL"@) =~= "all"@);
    assert(lowered("a"@) =~= "a"@);
    assert(lowered("current"@) =~= "current"@);
    assert(lowered("c"@) =~= "c"@);
    assert("current"@.len() == 7 && "all"@.len() == 3 && "a"@.len() == 1 && "c"@.len() == 1
        && "0"@.len() == 1);
    assert("c"@[0] == 'c' && "a"@[0] == 'a' && "0"@[0] == '0');
    assert(lowered("0"@)[0] == '0');
    assert(lowered("c"@)[0] == 'c');
    assert(lowered("current"@).len() == 7);
    assert(trim(""@).len() == 0) by {
        let f = |c: char| is_whitespace(c);
        assert(""@ =~= Seq::empty());
        assert(trim_start_where(""@, f) == ""@);
    }
}

/// A severity is coloured by the first level that its name holds, in any case,
/// in the order of errors, warnings, infos, debug messages and traces.
pub proof fn law_levels_have_colours(value: Seq<char>)
    ensures
        ({
            let up = raised(value);
            let error = contains_seq(up, "ERR"@) || contains_seq(up, "FATAL"@);
            let warn = contains_seq(up, "WARN"@);
            let info = contains_seq(up, "INFO"@);
            let debug = contains_seq(up, "DEBUG"@);
            let trace = contains_seq(up, "TRACE"@);
            &&& error ==> severity_color(value) == Color::LightRed
            &&& !error && warn ==> severity_color(value) == Color::Indexed(214)
            &&& !error && !warn && info ==> severity_color(value) == Color::LightGreen
            &&& !error && !warn && !info && debug ==> severity_color(value) == Color::LightCyan
            &&& !error && !warn && !info && !debug && trace ==> severity_color(value)
                == Color::LightBlue
            &&& !error && !warn && !info && !debug && !trace ==> severity_color(value)
                == Color::White
        }),
{
    reveal_strlit("ERROR");
    reveal_strlit("ERR");
    let up = raised(value);
    if contains_seq(up, "ERROR"@) {
        let at = choose|at: int| #[trigger] occurs_at(up, "ERROR"@, at);
        let whole = up.subrange(at, at + 5);
        assert(up.subrange(at, at + 3) =~= whole.take(3));
        assert(whole.take(3) =~= "ERR"@);
        assert(occurs_at(up, "ERR"@, at));
    }
}

/// The initial of a severity is its first letter of ASCII as a capital; a
/// severity without one has a blank.
pub proof fn law_initials_are_capitals(value: Seq<char>, i: int)
    requires
        0 <= i < value.len(),
        'a' <= value[i] <= 'z' || 'A' <= value[i] <= 'Z',
        forall|j: int|
            0 <= j < i ==> !('a' <= #[trigger] value[j] <= 'z' || 'A' <= value[j] <= 'Z'),
    ensures
        initial_of(value).len() == 1,
        'A' <= value[i] <= 'Z' ==> initial_of(value)[0] == value[i],
        'a' <= value[i] <= 'z' ==> initial_of(value)[0] as int - 'A' as int == value[i] as int
            - 'a' as int,
    decreases value.len(),
{
    if i > 0 {
        let rest = value.drop_first();
        assert(!('a' <= value[0] <= 'z' || 'A' <= value[0] <= 'Z'));
        assert forall|j: int| 0 <= j < i - 1 implies !('a' <= #[trigger] rest[j] <= 'z' || 'A'
            <= rest[j] <= 'Z') by {
            assert(!('a' <= value[j + 1] <= 'z' || 'A' <= value[j + 1] <= 'Z'));
        }
        law_initials_are_capitals(rest, i - 1);
    }
}

proof fn lemma_rounded(a: nat, b: nat)
    requires
        b > 0,
    ensures
        2 * (half_even(a, b) * b - a) <= b,
        2 * (a - half_even(a, b) * b) <= b,
        2 * (half_even(a, b) * b - a) == b ==> half_even(a, b) % 2 == 0,
        2 * (a - half_even(a, b) * b) == b ==> half_even(a, b) % 2 == 0,
{
    let q = a / b;
    let r = a % b;
    assert(a == q * b + r && r < b) by (nonlinear_arith)
        requires
            b > 0,
            q == a / b,
            r == a % b,
    ;
    assert((q + 1) * b == q * b + b) by (nonlinear_arith);
}

/// Sizes are shown in bytes below a kilobyte, and otherwise in kilobytes or
/// megabytes of 1024, to the nearest tenth, of two the even one.
pub proof fn law_sizes_are_rounded(bytes: u64)
    requires
        bytes < 0x20_0000_0000_0000,
    ensures
        bytes < 1024 ==> size_parts(bytes) == (decimal(bytes as nat), " Bt"@),
        1024 <= bytes < 1024 * 1024 ==> exists|t: nat|
            {
                &&& size_parts(bytes) == (#[trigger] tenths_text(t), " Kb"@)
                &&& -1024 <= 2 * (t * 1024 - bytes * 10) <= 1024
                &&& 2 * (t * 1024 - bytes * 10) == 1024 ==> t % 2 == 0
                &&& 2 * (t * 1024 - bytes * 10) == -1024 ==> t % 2 == 0
            },
        bytes >= 1024 * 1024 ==> exists|t: nat|
            {
                &&& size_parts(bytes) == (#[trigger] tenths_text(t), " Mb"@)
                &&& -1048576 <= 2 * (t * 1048576 - bytes * 10) <= 1048576
                &&& 2 * (t * 1048576 - bytes * 10) == 1048576 ==> t % 2 == 0
                &&& 2 * (t * 1048576 - bytes * 10) == -1048576 ==> t % 2 == 0
            },
{
    let n = bytes as nat;
    if 1024 <= bytes < 1024 * 1024 {
        lemma_rounded(n * 10, 1024);
        let t = half_even(n * 10, 1024);
        assert(size_parts(bytes) == (tenths_text(t), " Kb"@));
    } else if bytes >= 1024 * 1024 {
        assert(double_step(n) == 1);
        assert(half_even(n, 1) == n);
        assert(as_double(n) == n);
        lemma_rounded(n * 10, 0x10_0000);
        let t = half_even(n * 10, 0x10_0000);
        assert(size_parts(bytes) == (tenths_text(t), " Mb"@));
    }
}

/// A tenth is one digit behind the point.
pub proof fn law_tenths_are_one_digit(t: nat)
    ensures
        exists|a: Seq<char>, b: Seq<char>|
            {
                &&& tenths_text(t) == #[trigger] (a + "."@ + b)
                &&& b.len() == 1
                &&& 10 * number_read(a) + number_read(b) == t
            },
{
    law_decimal_reads_back(t / 10);
    law_decimal_reads_back(t % 10);
    let a = decimal(t / 10);
    let b = decimal(t % 10);
    assert(tenths_text(t) == a + "."@ + b);
}

/// A text is cut to so many characters, with three dots behind it where
/// something is missing; control characters are shown as blanks.
pub proof fn law_texts_are_cut(s: Seq<char>, limit: nat, i: int)
    ensures
        s.len() <= limit ==> cut(s, limit) == s,
        s.len() > limit ==> cut(s, limit) == s.take(limit as int) + "..."@,
        flattened(s).len() == s.len(),
        0 <= i < s.len() && is_control(s[i]) ==> flattened(s)[i] == ' ',
        0 <= i < s.len() && !is_control(s[i]) ==> flattened(s)[i] == s[i],
{
}

/// A text that is fitted to a width has that many characters; what fits is
/// followed by blanks, and of what does not the beginning is kept.
pub proof fn law_fitted_texts_have_the_width(s: Seq<char>, width: nat, i: int)
    ensures
        fitted(s, width).len() == width,
        0 <= i < s.len() && s.len() <= width ==> fitted(s, width)[i] == s[i],
        s.len() <= i < width ==> fitted(s, width)[i] == ' ',
        s.len() > width && 0 <= i < width - 3 ==> fitted(s, width)[i] == s[i],
        s.len() > width && width - 3 <= i < width && 0 <= i ==> fitted(s, width)[i] == '.',
        padded(s, width).len() == if s.len() < width {
            width
        } else {
            s.len()
        },
{
    reveal_strlit("...");
}

proof fn lemma_spaced(b: Seq<u8>, i: int)
    requires
        0 <= i < b.len(),
    ensures
        spaced_hex(b).len() == 3 * b.len(),
        16 * hex_value(spaced_hex(b)[3 * i]) + hex_value(spaced_hex(b)[3 * i + 1]) == b[i],
        spaced_hex(b)[3 * i + 2] == ' ',
    decreases b.len(),
{
    reveal_strlit(" ");
    let init = b.drop_last();
    let x = b.last();
    if init.len() > 0 {
        lemma_spaced(
            init,
            if i < init.len() {
                i
            } else {
                0
            },
        );
    } else {
        assert(spaced_hex(init).len() == 0);
    }
    assert(hex_byte(x).len() == 2);
    let s = spaced_hex(b);
    if i < init.len() {
        assert(s[3 * i] == spaced_hex(init)[3 * i]);
        assert(s[3 * i + 1] == spaced_hex(init)[3 * i + 1]);
        assert(s[3 * i + 2] == spaced_hex(init)[3 * i + 2]);
    } else {
        assert(s[3 * i] == hex_byte(x)[0]);
        assert(s[3 * i + 1] == hex_byte(x)[1]);
    }
}

/// A dump starts with a line of the first sixteen bytes behind their place in
/// eight hexadecimal digits, and goes on with the bytes that follow; each byte
/// is two digits and a blank.
pub proof fn law_dumps_show_sixteen_bytes_a_line(b: Seq<u8>, at: int, i: int)
    requires
        0 <= at < b.len(),
    ensures
        ({
            let n = if at + 16 <= b.len() {
                16
            } else {
                b.len() - at
            };
            let place = hex_padded(at as nat, 8);
            let line = spaced_hex(b.subrange(at, at + n));
            &&& dump_from(b, at) == place + ": "@ + line + "\n"@ + dump_from(b, at + 16)
            &&& hex_number_read(place) == at
            &&& line.len() == 3 * n
            &&& 0 <= i < n ==> 16 * hex_value(line[3 * i]) + hex_value(line[3 * i + 1]) == b[at + i]
        }),
        dump_from(b, b.len() as int).len() == 0,
{
    let n = if at + 16 <= b.len() {
        16
    } else {
        b.len() - at
    };
    let part = b.subrange(at, at + n);
    law_padded_hex_reads_back(at as nat, 8);
    lemma_spaced(
        part,
        if 0 <= i < n {
            i
        } else {
            0
        },
    );
}

/// A line of the info pane shows its key, filled up to the width of the keys, a
/// colon, and the value without line breaks, cut to the width that is left.
pub proof fn law_info_lines_show_key_and_value(
    key: Seq<char>,
    value: Seq<char>,
    key_width: nat,
    value_width: nat,
)
    requires
        key.len() > 0,
        value != "\0N/A"@,
    ensures
        ({
            let line = info_line(key, value, key_width, value_width);
            &&& line.len() == 2
            &&& line[0].text == padded(key, key_width) + ": "@
            &&& line[1].text == cut(flattened(value), value_width)
        }),
{
}

/// Attributes of a resource, a scope, a record or a span are told apart from
/// the counts of them.
pub proof fn law_attribute_entries(name: Seq<char>)
    ensures
        name != "attrs"@ ==> attribute_entry("resource."@ + name) && attribute_entry(
            "scope."@ + name,
        ) && attribute_entry("record."@ + name) && attribute_entry("span."@ + name),
        !attribute_entry("resource.attrs"@),
        !attribute_entry("scope.attrs"@),
        !attribute_entry("record.attrs"@),
{
    reveal_strlit("resource.");
    reveal_strlit("scope.");
    reveal_strlit("record.");
    reveal_strlit("span.");
    reveal_strlit("attrs");
    reveal_strlit("resource.attrs");
    reveal_strlit("scope.attrs");
    reveal_strlit("record.attrs");
    reveal_strlit("span.attrs");
    let a = "resource."@ + name;
    let b = "scope."@ + name;
    let c = "record."@ + name;
    let d = "span."@ + name;
    assert(a.subrange(0, 9) =~= "resource."@);
    assert(b.subrange(0, 6) =~= "scope."@);
    assert(c.subrange(0, 7) =~= "record."@);
    assert(d.subrange(0, 5) =~= "span."@);
    if a == "resource.attrs"@ {
        assert(a.skip(9) =~= name);
        assert("resource.attrs"@.skip(9) =~= "attrs"@);
    }
    if b == "scope.attrs"@ {
        assert(b.skip(6) =~= name);
        assert("scope.attrs"@.skip(6) =~= "attrs"@);
    }
    if c == "record.attrs"@ {
        assert(c.skip(7) =~= name);
        assert("record.attrs"@.skip(7) =~= "attrs"@);
    }
    if d == "span.attrs"@ {
        assert(d.skip(5) =~= name);
        assert("span.attrs"@.skip(5) =~= "attrs"@);
    }
    assert("resource.attrs"@.subrange(0, 6) != "scope."@) by {
        assert("resource.attrs"@.subrange(0, 6)[0] == 'r');
    }
    assert("resource.attrs"@.subrange(0, 7) != "record."@) by {
        assert("resource.attrs"@.subrange(0, 7)[2] == 's');
    }
    assert("resource.attrs"@.subrange(0, 5) != "span."@) by {
        assert("resource.attrs"@.subrange(0, 5)[0] == 'r');
    }
    assert("scope.attrs"@.subrange(0, 9) != "resource."@) by {
        assert("scope.attrs"@.subrange(0, 9)[0] == 's');
    }
    assert("scope.attrs"@.subrange(0, 7) != "record."@) by {
        assert("scope.attrs"@.subrange(0, 7)[0] == 's');
    }
    assert("scope.attrs"@.subrange(0, 5) != "span."@) by {
        assert("scope.attrs"@.subrange(0, 5)[1] == 'c');
    }
    assert("record.attrs"@.subrange(0, 9) != "resource."@) by {
        assert("record.attrs"@.subrange(0, 9)[2] == 'c');
    }
    assert("record.attrs"@.subrange(0, 6) != "scope."@) by {
        assert("record.attrs"@.subrange(0, 6)[0] == 'r');
    }
    assert("record.attrs"@.subrange(0, 5) != "span."@) by {
        assert("record.attrs"@.subrange(0, 5)[0] == 'r');
    }
}

/// A number of more than 53 bits is rounded to the nearest that has 53, of two
/// the one with the even last digit.
pub proof fn law_large_numbers_are_rounded(n: nat)
    requires
        n >= 0x20_0000_0000_0000,
    ensures
        double_step(n) * 0x10_0000_0000_0000 <= n < double_step(n) * 0x20_0000_0000_0000,
        2 * (as_double(n) - n) <= double_step(n),
        2 * (n - as_double(n)) <= double_step(n),
    decreases n,
{
    if n / 2 >= 0x20_0000_0000_0000 {
        law_large_numbers_are_rounded(n / 2);
    } else {
        assert(double_step(n / 2) == 1);
    }
    lemma_rounded(n, double_step(n));
}

proof fn lemma_begins(prefix: Seq<char>, rest: Seq<char>)
    ensures
        begins(prefix + rest, prefix),
{
    assert((prefix + rest).subrange(0, prefix.len() as int) =~= prefix);
}

/// The names of the standard start with one of these words and a dot.
pub proof fn law_standard_names(rest: Seq<char>)
    ensures
        standard_name("service."@ + rest),
        standard_name("telemetry."@ + rest),
        standard_name("host."@ + rest),
        standard_name("os."@ + rest),
        standard_name("process."@ + rest),
        standard_name("container."@ + rest),
        standard_name("k8s."@ + rest),
        standard_name("cloud."@ + rest),
        standard_name("deployment."@ + rest),
        standard_name("device."@ + rest),
        standard_name("faas."@ + rest),
        standard_name("enduser."@ + rest),
        standard_name("server."@ + rest),
        standard_name("client."@ + rest),
        standard_name("http."@ + rest),
        standard_name("url."@ + rest),
        standard_name("network."@ + rest),
        standard_name("net."@ + rest),
        standard_name("rpc."@ + rest),
        standard_name("db."@ + rest),
        standard_name("messaging."@ + rest),
        standard_name("exception."@ + rest),
        standard_name("code."@ + rest),
        standard_name("thread."@ + rest),
        standard_name("gen_ai."@ + rest),
        standard_name("browser."@ + rest),
        standard_name("user_agent."@ + rest),
        standard_name("aws."@ + rest),
        standard_name("gcp."@ + rest),
        standard_name("azure."@ + rest),
        standard_name("vcs."@ + rest),
{
    lemma_begins("service."@, rest);
    lemma_begins("telemetry."@, rest);
    lemma_begins("host."@, rest);
    lemma_begins("os."@, rest);
    lemma_begins("process."@, rest);
    lemma_begins("container."@, rest);
    lemma_begins("k8s."@, rest);
    lemma_begins("cloud."@, rest);
    lemma_begins("deployment."@, rest);
    lemma_begins("device."@, rest);
    lemma_begins("faas."@, rest);
    lemma_begins("enduser."@, rest);
    lemma_begins("server."@, rest);
    lemma_begins("client."@, rest);
    lemma_begins("http."@, rest);
    lemma_begins("url."@, rest);
    lemma_begins("network."@, rest);
    lemma_begins("net."@, rest);
    lemma_begins("rpc."@, rest);
    lemma_begins("db."@, rest);
    lemma_begins("messaging."@, rest);
    lemma_begins("exception."@, rest);
    lemma_begins("code."@, rest);
    lemma_begins("thread."@, rest);
    lemma_begins("gen_ai."@, rest);
    lemma_begins("browser."@, rest);
    lemma_begins("user_agent."@, rest);
    lemma_begins("aws."@, rest);
    lemma_begins("gcp."@, rest);
    lemma_begins("azure."@, rest);
    lemma_begins("vcs."@, rest);
}

/// An attribute has a name of the standard where what follows its first dot is
/// one.
pub proof fn law_standard_entries(kind: Seq<char>, name: Seq<char>)
    requires
        !kind.contains('.'),
    ensures
        standard_entry(kind + seq!['.'] + name) <==> standard_name(name),
        !standard_entry(kind),
{
    let key = kind + seq!['.'] + name;
    let n = kind.len() as int;
    assert forall|i: int| 0 <= i < n implies key[i] != '.' by {
        assert(kind.contains(kind[i]));
        assert(key[i] == kind[i]);
    }
    lemma_first_index(key, '.', n);
    assert(key.skip(n + 1) =~= name);
    assert forall|i: int| 0 <= i < n implies kind[i] != '.' by {
        assert(kind.contains(kind[i]));
    }
    lemma_first_index(kind, '.', n);
}

} // verus!
