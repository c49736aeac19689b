//! The textual dump of a plan: one line per step, one fixed-width token per
//! cell. It is meant for reading, and nothing reads it back.

use vstd::prelude::*;

use crate::action::Action;
use crate::query::Query;
use crate::step::Step;

verus! {

/// The width to which each cell's token is padded.
pub const COLUMN_WIDTH: usize = 11;

/// The text that std's `Debug` formatting gives for a string with these
/// characters: the string in double quotes, with the characters that need it
/// escaped.
pub uninterp spec fn quoted(id: Seq<char>) -> Seq<char>;

/// `format!("{:?}", id)`, std's `Debug` formatting of a `str`. All that is
/// claimed of it is that its result depends on the characters of `id` alone.
#[verifier::external_body]
fn quote(id: &str) -> (text: String)
    ensures
        text@ == quoted(id@),
{
    format!("{:?}", id)
}

/// The decimal digit `d`.
pub open spec fn digit(d: nat) -> char {
    if d == 0 {
        '0'
    } else if d == 1 {
        '1'
    } else if d == 2 {
        '2'
    } else if d == 3 {
        '3'
    } else if d == 4 {
        '4'
    } else if d == 5 {
        '5'
    } else if d == 6 {
        '6'
    } else if d == 7 {
        '7'
    } else if d == 8 {
        '8'
    } else {
        '9'
    }
}

/// The decimal numeral of `n`, without leading zeros.
pub open spec fn decimal(n: nat) -> Seq<char>
    decreases n,
{
    if n < 10 {
        seq![digit(n)]
    } else {
        decimal(n / 10).push(digit(n % 10))
    }
}

/// A variant name with its payload in round brackets.
pub open spec fn tagged(tag: Seq<char>, payload: Seq<char>) -> Seq<char> {
    tag + seq!['('] + payload + seq![')']
}

/// The token of a cell: the name of its variant, followed, where the variant
/// carries an identifier or an index, by that payload in round brackets. An
/// identifier is written as a quoted string, an index as a decimal numeral.
pub open spec fn label(action: Action) -> Seq<char> {
    match action {
        Action::Empty => "Empty"@,
        Action::Reserved => "None"@,
        Action::Name(id) => tagged("Name"@, quoted(id@)),
        Action::Select => "Select"@,
        Action::Transform => "Map"@,
        Action::Filter => "Filter"@,
        Action::Group(index) => tagged("Group"@, decimal(index as nat)),
        Action::Join(id) => tagged("Join"@, quoted(id@)),
    }
}

/// `text`, left-justified in `width` characters: spaces are added at its end
/// until it is `width` long, and a longer text is left as it is.
pub open spec fn padded(text: Seq<char>, width: nat) -> Seq<char> {
    if text.len() >= width {
        text
    } else {
        text + Seq::new((width - text.len()) as nat, |i: int| ' ')
    }
}

/// The padded tokens of the cells of a row, one after the other.
pub open spec fn tokens(row: Seq<Action>) -> Seq<char>
    decreases row.len(),
{
    if row.len() == 0 {
        Seq::empty()
    } else {
        tokens(row.drop_last()) + padded(label(row.last()), COLUMN_WIDTH as nat)
    }
}

/// The line of a row: its tokens, and a newline.
pub open spec fn line(row: Seq<Action>) -> Seq<char> {
    tokens(row).push('\n')
}

/// The text of a plan: the lines of its rows, top to bottom.
pub open spec fn rendered(rows: Seq<Seq<Action>>) -> Seq<char>
    decreases rows.len(),
{
    if rows.len() == 0 {
        Seq::empty()
    } else {
        rendered(rows.drop_last()) + line(rows.last())
    }
}

fn digit_text(d: u32) -> (text: &'static str)
    requires
        d < 10,
    ensures
        text@ == seq![digit(d as nat)],
{
    proof {
        reveal_strlit("0");
        reveal_strlit("1");
        reveal_strlit("2");
        reveal_strlit("3");
        reveal_strlit("4");
        reveal_strlit("5");
        reveal_strlit("6");
        reveal_strlit("7");
        reveal_strlit("8");
        reveal_strlit("9");
    }
    let text = if d == 0 {
        "0"
    } else if d == 1 {
        "1"
    } else if d == 2 {
        "2"
    } else if d == 3 {
        "3"
    } else if d == 4 {
        "4"
    } else if d == 5 {
        "5"
    } else if d == 6 {
        "6"
    } else if d == 7 {
        "7"
    } else if d == 8 {
        "8"
    } else {
        "9"
    };
    assert(text@ =~= seq![digit(d as nat)]);
    text
}

/// The decimal numeral of `n`.
pub fn decimal_text(n: u32) -> (text: String)
    ensures
        text@ == decimal(n as nat),
    decreases n,
{
    if n < 10 {
        String::from_str(digit_text(n))
    } else {
        let mut text = decimal_text(n / 10);
        text.append(digit_text(n % 10));
        text
    }
}

/// `tag`, then `payload` in round brackets.
pub fn tagged_text(tag: &str, payload: &str) -> (text: String)
    ensures
        text@ == tagged(tag@, payload@),
{
    proof {
        reveal_strlit("(");
        reveal_strlit(")");
    }
    let mut text = String::from_str(tag);
    text.append("(");
    text.append(payload);
    text.append(")");
    assert("("@ =~= seq!['(']);
    assert(")"@ =~= seq![')']);
    text
}

/// `text`, left-justified in `width` characters.
pub fn pad(text: String, width: usize) -> (wide: String)
    ensures
        wide@ == padded(text@, width as nat),
{
    proof {
        reveal_strlit(" ");
    }
    let ghost narrow = text@;
    let mut wide = text;
    let mut len = wide.as_str().unicode_len();
    while len < width
        invariant
            len == wide@.len(),
            narrow.len() <= len,
            len <= width || len == narrow.len(),
            wide@ == narrow + Seq::new((len - narrow.len()) as nat, |i: int| ' '),
            " "@ =~= seq![' '],
        decreases width - len,
    {
        wide.append(" ");
        len += 1;
    }
    wide
}

impl<'a> Action<'a> {
    /// The token of this cell, not yet padded.
    pub fn label(&self) -> (text: String)
        ensures
            text@ == label(*self),
    {
        match self {
            Action::Empty => String::from_str("Empty"),
            Action::Reserved => String::from_str("None"),
            Action::Name(id) => {
                let id_text = quote(id);
                tagged_text("Name", id_text.as_str())
            },
            Action::Select => String::from_str("Select"),
            Action::Transform => String::from_str("Map"),
            Action::Filter => String::from_str("Filter"),
            Action::Group(index) => {
                let index_text = decimal_text(*index);
                tagged_text("Group", index_text.as_str())
            },
            Action::Join(id) => {
                let id_text = quote(id);
                tagged_text("Join", id_text.as_str())
            },
        }
    }
}

impl<'a> Step<'a> {
    /// The line of this step, with its newline.
    pub fn render(&self) -> (text: String)
        ensures
            text@ == line(self@),
    {
        proof {
            reveal_strlit("\n");
        }
        let mut text = String::new();
        let mut i: usize = 0;
        while i < self.actions.len()
            invariant
                i <= self.actions.len(),
                text@ == tokens(self@.take(i as int)),
            decreases self.actions.len() - i,
        {
            let token = pad(self.actions[i].label(), COLUMN_WIDTH);
            text.append(token.as_str());
            proof {
                let head = self@.take(i + 1);
                assert(head.drop_last() == self@.take(i as int));
                assert(head.last() == self@[i as int]);
            }
            i += 1;
        }
        assert(self@.take(i as int) == self@);
        text.append("\n");
        assert("\n"@ =~= seq!['\n']);
        text
    }
}

impl<'a> Query<'a> {
    /// The text of this plan: one line per step. The same plan always gives
    /// the same text.
    pub fn render(&self) -> (text: String)
        ensures
            text@ == rendered(self@),
    {
        let mut text = String::new();
        let mut r: usize = 0;
        while r < self.steps.len()
            invariant
                r <= self.steps.len(),
                text@ == rendered(self@.take(r as int)),
            decreases self.steps.len() - r,
        {
            let row = self.steps[r].render();
            text.append(row.as_str());
            proof {
                let head = self@.take(r + 1);
                assert(head.drop_last() == self@.take(r as int));
                assert(head.last() == self@[r as int]);
            }
            r += 1;
        }
        assert(self@.take(r as int) == self@);
        text
    }
}

} // verus!
