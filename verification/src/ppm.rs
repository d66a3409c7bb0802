//! Plain-text pixmap output: three header lines, then one line for each
//! row of pixels, every pixel written as three numbers in base ten.

use vstd::prelude::*;
use vstd::string::StringExecFns;

verus! {

/// The character that writes the digit `d`, for `0 <= d <= 9`.
pub open spec fn digit_char(d: int) -> char {
    if d == 0 {
        '0'
    } else if d == 1 {
        '1'
    } else if d == 2 {
        '2'
    } else if d == 3 {
        '3'
    } else if d == 4 {
        '4'
    } else if d == 5 {
        '5'
    } else if d == 6 {
        '6'
    } else if d == 7 {
        '7'
    } else if d == 8 {
        '8'
    } else {
        '9'
    }
}

/// The base-ten numeral of `n`, most significant digit first, without
/// leading zeros; zero is written `0`.
pub open spec fn decimal(n: nat) -> Seq<char>
    decreases n,
{
    if n < 10 {
        seq![digit_char(n as int)]
    } else {
        decimal(n / 10).push(digit_char((n % 10) as int))
    }
}

/// The one-character text of a digit.
fn digit_text(d: u64) -> (text: &'static str)
    requires
        d < 10,
    ensures
        text@ == seq![digit_char(d as int)],
{
    proof {
        reveal_strlit("0");
        reveal_strlit("1");
        reveal_strlit("2");
        reveal_strlit("3");
        reveal_strlit("4");
        reveal_strlit("5");
        reveal_strlit("6");
        reveal_strlit("7");
        reveal_strlit("8");
        reveal_strlit("9");
    }
    let text: &'static str = if d == 0 {
        "0"
    } else if d == 1 {
        "1"
    } else if d == 2 {
        "2"
    } else if d == 3 {
        "3"
    } else if d == 4 {
        "4"
    } else if d == 5 {
        "5"
    } else if d == 6 {
        "6"
    } else if d == 7 {
        "7"
    } else if d == 8 {
        "8"
    } else {
        "9"
    };
    assert(text@ =~= seq![digit_char(d as int)]);
    text
}

/// Appends the base-ten numeral of `n` to `out`.
pub fn push_decimal(out: &mut String, n: u64)
    ensures
        final(out)@ == old(out)@ + decimal(n as nat),
    decreases n,
{
    if n >= 10 {
        push_decimal(out, n / 10);
    }
    out.append(digit_text(n % 10));
    assert(out@ =~= old(out)@ + decimal(n as nat));
}

/// The colour of one finished pixel: red, green and blue, each from 0 to 255.
#[derive(Clone, Copy, Debug, PartialEq, Eq, Structural)]
pub struct Rgb {
    pub r: u8,
    pub g: u8,
    pub b: u8,
}

/// The three channel values of a pixel in base ten, with one space between
/// them.
pub open spec fn triple_text(pixel: Rgb) -> Seq<char> {
    decimal(pixel.r as nat) + seq![' '] + decimal(pixel.g as nat) + seq![' '] + decimal(
        pixel.b as nat,
    )
}

/// The three header lines of an image: the magic word, width and height,
/// and the greatest channel value.
pub open spec fn header_text(width: nat, height: nat) -> Seq<char> {
    seq!['P', '3', '\n'] + decimal(width) + seq![' '] + decimal(height) + seq![
        '\n',
        '2',
        '5',
        '5',
        '\n',
    ]
}

/// The first `n` pixels of a row, each followed by a space.
pub open spec fn pixels_text(row: Seq<Rgb>, n: nat) -> Seq<char>
    decreases n,
{
    if n == 0 {
        Seq::<char>::empty()
    } else {
        pixels_text(row, (n - 1) as nat) + triple_text(row[n - 1]) + seq![' ']
    }
}

/// One line of pixels: every pixel of the row followed by a space, and a
/// line feed at the end.
pub open spec fn row_text(row: Seq<Rgb>) -> Seq<char> {
    pixels_text(row, row.len()) + seq!['\n']
}

/// The lines of the first `n` rows, from the top.
pub open spec fn rows_text(rows: Seq<Vec<Rgb>>, n: nat) -> Seq<char>
    decreases n,
{
    if n == 0 {
        Seq::<char>::empty()
    } else {
        rows_text(rows, (n - 1) as nat) + row_text(rows[n - 1]@)
    }
}

/// A whole image file: the header, then one line for each row.
pub open spec fn image_text(width: nat, height: nat, rows: Seq<Vec<Rgb>>) -> Seq<char> {
    header_text(width, height) + rows_text(rows, rows.len())
}

impl Rgb {
    /// Writes the pixel as three numbers with a space between them.
    pub fn format_color(&self) -> (text: String)
        ensures
            text@ == triple_text(*self),
    {
        proof {
            reveal_strlit(" ");
        }
        let mut text = String::new();
        push_decimal(&mut text, self.r as u64);
        text.append(" ");
        push_decimal(&mut text, self.g as u64);
        text.append(" ");
        push_decimal(&mut text, self.b as u64);
        assert(text@ =~= triple_text(*self));
        text
    }
}

/// Writes the header of an image of the given size.
pub fn ppm_header(width: usize, height: usize) -> (text: String)
    ensures
        text@ == header_text(width as nat, height as nat),
{
    proof {
        reveal_strlit("P3\n");
        reveal_strlit(" ");
        reveal_strlit("\n255\n");
    }
    let mut text = String::from_str("P3\n");
    push_decimal(&mut text, width as u64);
    text.append(" ");
    push_decimal(&mut text, height as u64);
    text.append("\n255\n");
    assert(text@ =~= header_text(width as nat, height as nat));
    text
}

/// Writes one row of pixels as a line.
pub fn ppm_row(row: &Vec<Rgb>) -> (text: String)
    ensures
        text@ == row_text(row@),
{
    proof {
        reveal_strlit(" ");
        reveal_strlit("\n");
    }
    let mut text = String::new();
    let mut i: usize = 0;
    assert(text@ =~= pixels_text(row@, 0));
    while i < row.len()
        invariant
            i <= row.len(),
            text@ == pixels_text(row@, i as nat),
            " "@ == seq![' '],
        decreases row.len() - i,
    {
        let triple = row[i].format_color();
        text.append(triple.as_str());
        text.append(" ");
        i = i + 1;
        assert(text@ =~= pixels_text(row@, i as nat));
    }
    text.append("\n");
    text
}

/// Writes a whole image: the header for the given size, then the rows from
/// first to last.
pub fn ppm_image(width: usize, height: usize, rows: &Vec<Vec<Rgb>>) -> (text: String)
    ensures
        text@ == image_text(width as nat, height as nat, rows@),
{
    let mut text = ppm_header(width, height);
    let mut i: usize = 0;
    assert(text@ =~= header_text(width as nat, height as nat) + rows_text(rows@, 0));
    while i < rows.len()
        invariant
            i <= rows.len(),
            text@ == header_text(width as nat, height as nat) + rows_text(rows@, i as nat),
        decreases rows.len() - i,
    {
        let line = ppm_row(&rows[i]);
        text.append(line.as_str());
        i = i + 1;
        assert(text@ =~= header_text(width as nat, height as nat) + rows_text(rows@, i as nat));
    }
    text
}

/// Whether a character is one of the ten digits.
pub open spec fn is_digit(c: char) -> bool {
    exists|d: int| 0 <= d <= 9 && c == #[trigger] digit_char(d)
}

/// The number that a character writes as a digit.
pub open spec fn digit_value(c: char) -> nat {
    if c == '1' {
        1
    } else if c == '2' {
        2
    } else if c == '3' {
        3
    } else if c == '4' {
        4
    } else if c == '5' {
        5
    } else if c == '6' {
        6
    } else if c == '7' {
        7
    } else if c == '8' {
        8
    } else if c == '9' {
        9
    } else {
        0
    }
}

/// The number that a text of digits writes in base ten.
pub open spec fn numeral_value(text: Seq<char>) -> nat
    decreases text.len(),
{
    if text.len() == 0 {
        0
    } else {
        numeral_value(text.drop_last()) * 10 + digit_value(text.last())
    }
}

/// How often a character stands in a text.
pub open spec fn occurrences(text: Seq<char>, c: char) -> nat
    decreases text.len(),
{
    if text.len() == 0 {
        0
    } else {
        occurrences(text.drop_last(), c) + if text.last() == c {
            1nat
        } else {
            0nat
        }
    }
}

/// A numeral is one digit or more, all its characters are digits, and it
/// begins with `0` only when it writes zero.
pub proof fn lemma_decimal_is_a_numeral(n: nat)
    ensures
        decimal(n).len() >= 1,
        forall|i: int| 0 <= i < decimal(n).len() ==> is_digit(#[trigger] decimal(n)[i]),
        decimal(n)[0] == '0' ==> n == 0,
    decreases n,
{
    if n < 10 {
        assert(is_digit(digit_char(n as int)));
    } else {
        lemma_decimal_is_a_numeral(n / 10);
        let d = (n % 10) as int;
        assert(is_digit(digit_char(d)));
        let front = decimal(n / 10);
        assert forall|i: int| 0 <= i < decimal(n).len() implies is_digit(
            #[trigger] decimal(n)[i],
        ) by {
            if i < front.len() {
                assert(decimal(n)[i] == front[i]);
            }
        }
        assert(decimal(n)[0] == front[0]);
    }
}

/// Reading a numeral gives back the number that was written: different
/// numbers have different numerals.
pub proof fn lemma_decimal_round_trip(n: nat)
    ensures
        numeral_value(decimal(n)) == n,
    decreases n,
{
    if n < 10 {
        let text = decimal(n);
        assert(text.drop_last() =~= Seq::<char>::empty());
        assert(numeral_value(text.drop_last()) == 0);
        assert(text.last() == digit_char(n as int));
    } else {
        lemma_decimal_round_trip(n / 10);
        let text = decimal(n);
        assert(text.drop_last() =~= decimal(n / 10));
        assert(text.last() == digit_char((n % 10) as int));
    }
}

/// The occurrences in a text of two parts are those in the parts together.
pub proof fn lemma_occurrences_of_parts(a: Seq<char>, b: Seq<char>, c: char)
    ensures
        occurrences(a + b, c) == occurrences(a, c) + occurrences(b, c),
    decreases b.len(),
{
    if b.len() == 0 {
        assert(a + b =~= a);
    } else {
        lemma_occurrences_of_parts(a, b.drop_last(), c);
        assert((a + b).drop_last() =~= a + b.drop_last());
        assert((a + b).last() == b.last());
    }
}

/// A character that is no digit does not stand in a numeral.
pub proof fn lemma_no_stranger_in_a_numeral(n: nat, c: char)
    requires
        !is_digit(c),
    ensures
        occurrences(decimal(n), c) == 0,
    decreases n,
{
    if n < 10 {
        assert(is_digit(digit_char(n as int)));
        lemma_occurrences_in_one(digit_char(n as int), c);
    } else {
        lemma_no_stranger_in_a_numeral(n / 10, c);
        let text = decimal(n);
        assert(is_digit(digit_char((n % 10) as int)));
        assert(text.drop_last() =~= decimal(n / 10));
    }
}

proof fn lemma_space_and_line_feed_are_no_digits()
    ensures
        !is_digit(' '),
        !is_digit('\n'),
{
}

proof fn lemma_occurrences_in_one(x: char, c: char)
    ensures
        occurrences(seq![x], c) == if x == c {
            1nat
        } else {
            0nat
        },
{
    reveal_with_fuel(occurrences, 2);
    assert(seq![x].drop_last() =~= Seq::<char>::empty());
}

proof fn lemma_triple_counts(pixel: Rgb)
    ensures
        occurrences(triple_text(pixel), ' ') == 2,
        occurrences(triple_text(pixel), '\n') == 0,
{
    lemma_space_and_line_feed_are_no_digits();
    let r = decimal(pixel.r as nat);
    let g = decimal(pixel.g as nat);
    let b = decimal(pixel.b as nat);
    let sp = seq![' '];
    lemma_no_stranger_in_a_numeral(pixel.r as nat, ' ');
    lemma_no_stranger_in_a_numeral(pixel.g as nat, ' ');
    lemma_no_stranger_in_a_numeral(pixel.b as nat, ' ');
    lemma_no_stranger_in_a_numeral(pixel.r as nat, '\n');
    lemma_no_stranger_in_a_numeral(pixel.g as nat, '\n');
    lemma_no_stranger_in_a_numeral(pixel.b as nat, '\n');
    lemma_occurrences_in_one(' ', ' ');
    lemma_occurrences_in_one(' ', '\n');
    lemma_occurrences_of_parts(r, sp, ' ');
    lemma_occurrences_of_parts(r + sp, g, ' ');
    lemma_occurrences_of_parts(r + sp + g, sp, ' ');
    lemma_occurrences_of_parts(r + sp + g + sp, b, ' ');
    lemma_occurrences_of_parts(r, sp, '\n');
    lemma_occurrences_of_parts(r + sp, g, '\n');
    lemma_occurrences_of_parts(r + sp + g, sp, '\n');
    lemma_occurrences_of_parts(r + sp + g + sp, b, '\n');
}

proof fn lemma_pixels_counts(row: Seq<Rgb>, n: nat)
    requires
        n <= row.len(),
    ensures
        occurrences(pixels_text(row, n), ' ') == 3 * n,
        occurrences(pixels_text(row, n), '\n') == 0,
    decreases n,
{
    if n > 0 {
        let front = pixels_text(row, (n - 1) as nat);
        let triple = triple_text(row[n - 1]);
        lemma_pixels_counts(row, (n - 1) as nat);
        lemma_triple_counts(row[n - 1]);
        lemma_occurrences_in_one(' ', ' ');
        lemma_occurrences_in_one(' ', '\n');
        lemma_occurrences_of_parts(front, triple, ' ');
        lemma_occurrences_of_parts(front + triple, seq![' '], ' ');
        lemma_occurrences_of_parts(front, triple, '\n');
        lemma_occurrences_of_parts(front + triple, seq![' '], '\n');
    }
}

/// The line of a row holds three numbers for each pixel, told by the three
/// spaces that each pixel brings, and ends with its only line feed.
pub proof fn lemma_row_holds_its_pixels(row: Seq<Rgb>)
    ensures
        occurrences(row_text(row), ' ') == 3 * row.len(),
        occurrences(row_text(row), '\n') == 1,
        row_text(row).last() == '\n',
{
    let pixels = pixels_text(row, row.len());
    lemma_pixels_counts(row, row.len());
    lemma_occurrences_in_one('\n', ' ');
    lemma_occurrences_in_one('\n', '\n');
    lemma_occurrences_of_parts(pixels, seq!['\n'], ' ');
    lemma_occurrences_of_parts(pixels, seq!['\n'], '\n');
}

proof fn lemma_rows_counts(rows: Seq<Vec<Rgb>>, n: nat)
    requires
        n <= rows.len(),
    ensures
        occurrences(rows_text(rows, n), '\n') == n,
    decreases n,
{
    if n > 0 {
        lemma_rows_counts(rows, (n - 1) as nat);
        lemma_row_holds_its_pixels(rows[n - 1]@);
        lemma_occurrences_of_parts(rows_text(rows, (n - 1) as nat), row_text(rows[n - 1]@), '\n');
    }
}

/// The header is three lines, and it begins with the magic word on a line
/// of its own.
pub proof fn lemma_header_is_three_lines(width: nat, height: nat)
    ensures
        occurrences(header_text(width, height), '\n') == 3,
        header_text(width, height).subrange(0, 3) == seq!['P', '3', '\n'],
        header_text(width, height).last() == '\n',
{
    lemma_space_and_line_feed_are_no_digits();
    let magic = seq!['P', '3', '\n'];
    let w = decimal(width);
    let h = decimal(height);
    let sp = seq![' '];
    let tail = seq!['\n', '2', '5', '5', '\n'];
    lemma_no_stranger_in_a_numeral(width, '\n');
    lemma_no_stranger_in_a_numeral(height, '\n');
    lemma_occurrences_in_one(' ', '\n');
    assert(occurrences(magic, '\n') == 1) by {
        reveal_with_fuel(occurrences, 4);
        assert(magic.drop_last() =~= seq!['P', '3']);
        assert(magic.drop_last().drop_last() =~= seq!['P']);
        assert(magic.drop_last().drop_last().drop_last() =~= Seq::<char>::empty());
    }
    assert(occurrences(tail, '\n') == 2) by {
        lemma_occurrences_in_one('\n', '\n');
        lemma_occurrences_in_one('2', '\n');
        lemma_occurrences_in_one('5', '\n');
        assert(tail =~= seq!['\n'] + seq!['2'] + seq!['5'] + seq!['5'] + seq!['\n']);
        lemma_occurrences_of_parts(seq!['\n'], seq!['2'], '\n');
        lemma_occurrences_of_parts(seq!['\n'] + seq!['2'], seq!['5'], '\n');
        lemma_occurrences_of_parts(seq!['\n'] + seq!['2'] + seq!['5'], seq!['5'], '\n');
        lemma_occurrences_of_parts(
            seq!['\n'] + seq!['2'] + seq!['5'] + seq!['5'],
            seq!['\n'],
            '\n',
        );
    }
    lemma_occurrences_of_parts(magic, w, '\n');
    lemma_occurrences_of_parts(magic + w, sp, '\n');
    lemma_occurrences_of_parts(magic + w + sp, h, '\n');
    lemma_occurrences_of_parts(magic + w + sp + h, tail, '\n');
    assert(header_text(width, height).subrange(0, 3) =~= magic);
}

/// An image file has three header lines and then one line for each row.
pub proof fn lemma_image_has_a_line_for_each_row(width: nat, height: nat, rows: Seq<Vec<Rgb>>)
    ensures
        occurrences(image_text(width, height, rows), '\n') == 3 + rows.len(),
        image_text(width, height, rows).subrange(0, header_text(width, height).len() as int)
            == header_text(width, height),
{
    lemma_header_is_three_lines(width, height);
    lemma_rows_counts(rows, rows.len());
    lemma_occurrences_of_parts(header_text(width, height), rows_text(rows, rows.len()), '\n');
    assert(image_text(width, height, rows).subrange(0, header_text(width, height).len() as int)
        =~= header_text(width, height));
}

} // verus!
