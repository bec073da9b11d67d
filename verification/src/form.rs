//! Fixed-width text of the QSO entry form's fields, and the rows of the
//! advanced-field panel built from them.

use vstd::prelude::*;
use crate::header::{seg, segment, segment_views, Segment, Tone};
use crate::textual::{chars_to_string, str_to_chars};

verus! {

/// Display width of the short advanced fields (power, submode, serials).
pub const ADV_SHORT_WIDTH: usize = 20;

/// A field's text with the cursor bar appended when it has focus.
pub open spec fn with_cursor(text: Seq<char>, focused: bool) -> Seq<char> {
    if focused {
        text.push('|')
    } else {
        text
    }
}

/// `s` fitted to `width` characters: its last `width` characters when it
/// is longer, else `s` padded on the right with spaces.
pub open spec fn fit_width(s: Seq<char>, width: nat) -> Seq<char> {
    if s.len() > width {
        s.skip(s.len() - width)
    } else {
        s + Seq::new((width - s.len()) as nat, |i: int| ' ')
    }
}

/// The text shown for a form field: its content, with `|` when focused,
/// fitted to `width` characters so that the cursor end stays visible.
pub fn adv_field(text: &str, focused: bool, width: usize) -> (r: String)
    requires
        text@.len() < usize::MAX,
    ensures
        r@ == fit_width(with_cursor(text@, focused), width as nat),
        r@.len() == width,
{
    let mut s = str_to_chars(text);
    if focused {
        s.push('|');
    }
    let len = s.len();
    let mut out: Vec<char> = Vec::new();
    if len > width {
        let start = len - width;
        let mut i: usize = start;
        while i < len
            invariant
                start <= i <= len,
                len == s@.len(),
                out@ == s@.subrange(start as int, i as int),
            decreases len - i,
        {
            out.push(s[i]);
            i = i + 1;
        }
        assert(out@ =~= s@.skip(start as int));
    } else {
        let mut i: usize = 0;
        while i < len
            invariant
                i <= len,
                len == s@.len(),
                out@ == s@.take(i as int),
            decreases len - i,
        {
            out.push(s[i]);
            assert(s@.take(i + 1) =~= s@.take(i as int).push(s@[i as int]));
            i = i + 1;
        }
        assert(s@.take(len as int) =~= s@);
        let mut k: usize = len;
        while k < width
            invariant
                len <= k <= width,
                len == s@.len(),
                out@ == s@ + Seq::new((k - len) as nat, |j: int| ' '),
            decreases width - k,
        {
            out.push(' ');
            assert(s@ + Seq::new((k + 1 - len) as nat, |j: int| ' ') =~= (s@ + Seq::new(
                (k - len) as nat,
                |j: int| ' ',
            )).push(' '));
            k = k + 1;
        }
    }
    chars_to_string(out.as_slice())
}

/// The fields of the advanced panel.
#[derive(Debug, Clone, Copy, PartialEq, Eq, Structural)]
pub enum AdvancedField {
    TxPower,
    Submode,
    ContestId,
    SerialSent,
    SerialRcvd,
    ExchangeSent,
    ExchangeRcvd,
}

/// The contents of the advanced fields and the field that has focus, if
/// one of them has it.
#[derive(Debug)]
pub struct AdvancedForm {
    pub tx_power: String,
    pub submode_override: String,
    pub contest_id: String,
    pub serial_sent: String,
    pub serial_rcvd: String,
    pub exchange_sent: String,
    pub exchange_rcvd: String,
    pub focused: Option<AdvancedField>,
}

/// Every field's text can take the cursor bar.
pub open spec fn form_fits(form: AdvancedForm) -> bool {
    &&& form.tx_power@.len() < usize::MAX
    &&& form.submode_override@.len() < usize::MAX
    &&& form.contest_id@.len() < usize::MAX
    &&& form.serial_sent@.len() < usize::MAX
    &&& form.serial_rcvd@.len() < usize::MAX
    &&& form.exchange_sent@.len() < usize::MAX
    &&& form.exchange_rcvd@.len() < usize::MAX
}

/// A field label, drawn dim.
pub open spec fn label_view(text: Seq<char>) -> (Seq<char>, Option<Tone>, bool) {
    seg(text, Some(Tone::DarkGray), false)
}

/// A field's value: bright and bold when focused, grey otherwise.
pub open spec fn value_view(text: Seq<char>, focused: bool) -> (Seq<char>, Option<Tone>, bool) {
    if focused {
        seg(text, Some(Tone::White), true)
    } else {
        seg(text, Some(Tone::Gray), false)
    }
}

/// The value segment of a field with content `text` fitted to `width`.
pub open spec fn field_view(text: Seq<char>, focused: bool, width: nat) -> (Seq<char>, Option<Tone>, bool) {
    value_view(fit_width(with_cursor(text, focused), width), focused)
}

/// The width of the long fields in a panel `inner_width` columns wide:
/// all but the 11 columns of label and margin, and at least 10.
pub open spec fn wide_width(inner_width: nat) -> nat {
    if inner_width >= 21 {
        (inner_width - 11) as nat
    } else {
        10
    }
}

/// The lines of the advanced panel, top to bottom: power and submode,
/// contest, the two serials, exchange sent, exchange received. A panel
/// less than 4 lines high shows nothing.
pub open spec fn advanced_rows_view(form: AdvancedForm, inner_width: nat, inner_height: nat) -> Seq<
    Seq<(Seq<char>, Option<Tone>, bool)>,
> {
    let f = form.focused;
    let wide = wide_width(inner_width);
    let short = ADV_SHORT_WIDTH as nat;
    if inner_height < 4 {
        seq![]
    } else {
        seq![
            seq![
                label_view("TX Power "@),
                field_view(form.tx_power@, f == Some(AdvancedField::TxPower), short),
                seg("   "@, None, false),
                label_view("Submode  "@),
                field_view(form.submode_override@, f == Some(AdvancedField::Submode), short),
            ],
            seq![
                label_view("Contest  "@),
                field_view(form.contest_id@, f == Some(AdvancedField::ContestId), wide),
            ],
            seq![
                label_view("Ser Sent "@),
                field_view(form.serial_sent@, f == Some(AdvancedField::SerialSent), short),
                seg("   "@, None, false),
                label_view("Ser Rcvd "@),
                field_view(form.serial_rcvd@, f == Some(AdvancedField::SerialRcvd), short),
            ],
            seq![
                label_view("Exch Snt "@),
                field_view(form.exchange_sent@, f == Some(AdvancedField::ExchangeSent), wide),
            ],
            seq![
                label_view("Exch Rcvd"@),
                field_view(form.exchange_rcvd@, f == Some(AdvancedField::ExchangeRcvd), wide),
            ],
        ]
    }
}

fn has_focus(focused: Option<AdvancedField>, field: AdvancedField) -> (r: bool)
    ensures
        r == (focused == Some(field)),
{
    match focused {
        Some(g) => g == field,
        None => false,
    }
}

fn label(text: &str) -> (s: Segment)
    ensures
        (s.text@, s.tone, s.bold) == label_view(text@),
{
    segment(text, Some(Tone::DarkGray), false)
}

fn styled(text: String, focused: bool) -> (s: Segment)
    ensures
        (s.text@, s.tone, s.bold) == value_view(text@, focused),
{
    if focused {
        Segment { text, tone: Some(Tone::White), bold: true }
    } else {
        Segment { text, tone: Some(Tone::Gray), bold: false }
    }
}

fn field_segment(text: &String, focused: bool, width: usize) -> (s: Segment)
    requires
        text@.len() < usize::MAX,
    ensures
        (s.text@, s.tone, s.bold) == field_view(text@, focused, width as nat),
{
    styled(adv_field(text.as_str(), focused, width), focused)
}

fn pair_row(
    first_label: &str,
    first: &String,
    first_focused: bool,
    second_label: &str,
    second: &String,
    second_focused: bool,
) -> (r: Vec<Segment>)
    requires
        first@.len() < usize::MAX,
        second@.len() < usize::MAX,
    ensures
        segment_views(r@) == seq![
            label_view(first_label@),
            field_view(first@, first_focused, ADV_SHORT_WIDTH as nat),
            seg("   "@, None, false),
            label_view(second_label@),
            field_view(second@, second_focused, ADV_SHORT_WIDTH as nat),
        ],
{
    let r = vec![
        label(first_label),
        field_segment(first, first_focused, ADV_SHORT_WIDTH),
        segment("   ", None, false),
        label(second_label),
        field_segment(second, second_focused, ADV_SHORT_WIDTH),
    ];
    assert(segment_views(r@) =~= seq![
        label_view(first_label@),
        field_view(first@, first_focused, ADV_SHORT_WIDTH as nat),
        seg("   "@, None, false),
        label_view(second_label@),
        field_view(second@, second_focused, ADV_SHORT_WIDTH as nat),
    ]);
    r
}

fn wide_row(row_label: &str, text: &String, focused: bool, wide: usize) -> (r: Vec<Segment>)
    requires
        text@.len() < usize::MAX,
    ensures
        segment_views(r@) == seq![label_view(row_label@), field_view(text@, focused, wide as nat)],
{
    let r = vec![label(row_label), field_segment(text, focused, wide)];
    assert(segment_views(r@) =~= seq![label_view(row_label@), field_view(text@, focused, wide as nat)]);
    r
}

/// The lines of the advanced-field panel for a panel `inner_width` columns
/// wide and `inner_height` lines high.
pub fn advanced_rows(form: &AdvancedForm, inner_width: u16, inner_height: u16) -> (r: Vec<Vec<Segment>>)
    requires
        form_fits(*form),
    ensures
        r@.len() == advanced_rows_view(*form, inner_width as nat, inner_height as nat).len(),
        forall|i: int|
            0 <= i < r@.len() ==> segment_views(#[trigger] r@[i]@) == advanced_rows_view(
                *form,
                inner_width as nat,
                inner_height as nat,
            )[i],
{
    let ghost view = advanced_rows_view(*form, inner_width as nat, inner_height as nat);
    let mut rows: Vec<Vec<Segment>> = Vec::new();
    if inner_height < 4 {
        return rows;
    }
    let w: usize = inner_width as usize;
    let wide: usize = if w >= 21 {
        w - 11
    } else {
        10
    };
    let f = form.focused;
    rows.push(
        pair_row(
            "TX Power ",
            &form.tx_power,
            has_focus(f, AdvancedField::TxPower),
            "Submode  ",
            &form.submode_override,
            has_focus(f, AdvancedField::Submode),
        ),
    );
    rows.push(wide_row("Contest  ", &form.contest_id, has_focus(f, AdvancedField::ContestId), wide));
    rows.push(
        pair_row(
            "Ser Sent ",
            &form.serial_sent,
            has_focus(f, AdvancedField::SerialSent),
            "Ser Rcvd ",
            &form.serial_rcvd,
            has_focus(f, AdvancedField::SerialRcvd),
        ),
    );
    rows.push(
        wide_row("Exch Snt ", &form.exchange_sent, has_focus(f, AdvancedField::ExchangeSent), wide),
    );
    rows.push(
        wide_row("Exch Rcvd", &form.exchange_rcvd, has_focus(f, AdvancedField::ExchangeRcvd), wide),
    );
    assert(wide as nat == wide_width(inner_width as nat));
    rows
}

} // verus!
