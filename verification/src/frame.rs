//! The commands a draw pass produces, and the frame that collects them.

use vstd::prelude::*;

verus! {

/// How a piece of text is to be shown.
#[derive(Clone, Copy, Debug, PartialEq, Eq, Structural)]
pub enum Style {
    /// The terminal's default look.
    Plain,
    Green,
    Yellow,
    Blue,
    Red,
    Magenta,
    /// Italic grey, used for the status line.
    Note,
}

/// A piece of text together with its style.
#[derive(Debug, PartialEq, Eq)]
pub struct Styled {
    pub text: String,
    pub style: Style,
}

/// One instruction for the terminal.
#[derive(Debug, PartialEq, Eq)]
pub enum Command {
    /// Erase the whole screen.
    Clear,
    /// Put the cursor at column `x`, row `y`.
    MoveTo { x: u16, y: u16 },
    /// Move the cursor down by that many rows.
    MoveDown(u16),
    /// Move the cursor left by that many columns.
    MoveLeft(u16),
    /// Write text at the cursor.
    Print(Styled),
}

/// What a [`Command`] says, with its text as a sequence of characters.
pub ghost enum CommandView {
    Clear,
    MoveTo { x: u16, y: u16 },
    MoveDown(u16),
    MoveLeft(u16),
    Print { text: Seq<char>, style: Style },
}

impl View for Styled {
    type V = CommandView;

    open spec fn view(&self) -> CommandView {
        CommandView::Print { text: self.text@, style: self.style }
    }
}

impl View for Command {
    type V = CommandView;

    open spec fn view(&self) -> CommandView {
        match *self {
            Command::Clear => CommandView::Clear,
            Command::MoveTo { x, y } => CommandView::MoveTo { x, y },
            Command::MoveDown(n) => CommandView::MoveDown(n),
            Command::MoveLeft(n) => CommandView::MoveLeft(n),
            Command::Print(styled) => styled@,
        }
    }
}

impl Styled {
    /// Text in the default look.
    pub fn plain(text: &str) -> (r: Styled)
        ensures
            r@ == (CommandView::Print { text: text@, style: Style::Plain }),
    {
        Styled { text: String::from_str(text), style: Style::Plain }
    }

}

impl Clone for Styled {
    fn clone(&self) -> (r: Styled)
        ensures
            r@ == self@,
    {
        Styled { text: self.text.clone(), style: self.style }
    }
}

impl Clone for Command {
    fn clone(&self) -> (r: Command)
        ensures
            r@ == self@,
    {
        match self {
            Command::Clear => Command::Clear,
            Command::MoveTo { x, y } => Command::MoveTo { x: *x, y: *y },
            Command::MoveDown(n) => Command::MoveDown(*n),
            Command::MoveLeft(n) => Command::MoveLeft(*n),
            Command::Print(styled) => Command::Print(styled.clone()),
        }
    }
}

/// The commands of one draw pass, in the order in which they are to be
/// written to the terminal.
pub struct Frame {
    commands: Vec<Command>,
}

impl View for Frame {
    type V = Seq<CommandView>;

    closed spec fn view(&self) -> Seq<CommandView> {
        Seq::new(self.commands@.len(), |i: int| self.commands@[i]@)
    }
}

impl Frame {
    /// An empty frame.
    pub fn new() -> (r: Frame)
        ensures
            r@ == Seq::<CommandView>::empty(),
    {
        let r = Frame { commands: Vec::new() };
        assert(r@ =~= Seq::<CommandView>::empty());
        r
    }

    /// The number of commands collected so far.
    pub fn len(&self) -> (n: usize)
        ensures
            n == self@.len(),
    {
        self.commands.len()
    }

    /// The command at position `index`.
    pub fn get(&self, index: usize) -> (c: &Command)
        requires
            index < self@.len(),
        ensures
            c@ == self@[index as int],
    {
        &self.commands[index]
    }

    /// Appends one command.
    pub fn push(&mut self, command: Command)
        ensures
            final(self)@ == old(self)@.push(command@),
    {
        self.commands.push(command);
        assert(self@ =~= old(self)@.push(command@));
    }

    /// Appends a cursor move to column `x`, row `y`.
    pub fn move_to(&mut self, x: u16, y: u16)
        ensures
            final(self)@ == old(self)@.push(CommandView::MoveTo { x, y }),
    {
        self.push(Command::MoveTo { x, y });
    }

    /// Appends the writing of `text` in the default look.
    pub fn print(&mut self, text: &str)
        ensures
            final(self)@ == old(self)@.push(
                CommandView::Print { text: text@, style: Style::Plain },
            ),
    {
        self.push(Command::Print(Styled::plain(text)));
    }

    /// Appends the writing of a styled text.
    pub fn print_styled(&mut self, styled: Styled)
        ensures
            final(self)@ == old(self)@.push(styled@),
    {
        self.push(Command::Print(styled));
    }

    /// Drops every command from position `mark` on, which undoes what was
    /// appended since the frame had `mark` commands.
    pub fn rewind(&mut self, mark: usize)
        requires
            mark <= old(self)@.len(),
        ensures
            final(self)@ == old(self)@.take(mark as int),
    {
        self.commands.truncate(mark);
        assert(self@ =~= old(self)@.take(mark as int));
    }

    /// The collected commands, for the caller to write out.
    pub fn into_commands(self) -> (r: Vec<Command>)
        ensures
            r@.len() == self@.len(),
            forall|i: int| 0 <= i < r@.len() ==> (#[trigger] r@[i])@ == self@[i],
    {
        self.commands
    }
}

/// The row of the cursor after `command`, when it was on `row` before; no
/// row where it is not known. A move to a place sets the row, a move down
/// adds to a row that is known, and nothing else changes it.
pub open spec fn row_after(command: CommandView, row: Option<int>) -> Option<int> {
    match command {
        CommandView::MoveTo { x, y } => Some(y as int),
        CommandView::MoveDown(n) => match row {
            Some(r) => Some(r + n),
            None => None,
        },
        _ => row,
    }
}

/// The row of the cursor after all of `commands`, when it was on `row`
/// before them.
pub open spec fn row_after_all(commands: Seq<CommandView>, row: Option<int>) -> Option<int>
    decreases commands.len(),
{
    if commands.len() == 0 {
        row
    } else {
        row_after_all(commands.drop_first(), row_after(commands.first(), row))
    }
}

/// With the cursor on `row`, the command writes on no row but those from
/// `low` up to, but not including, `high`: it is no clearing of the screen,
/// and if it writes text, the cursor's row is known and is one of these.
pub open spec fn writes_on(command: CommandView, row: Option<int>, low: int, high: int) -> bool {
    match command {
        CommandView::Print { text, style } => row matches Some(r) && low <= r < high,
        CommandView::Clear => false,
        _ => true,
    }
}

/// Started with the cursor on `row`, `commands` write on no row but those
/// from `low` up to, but not including, `high`.
pub open spec fn write_within(
    commands: Seq<CommandView>,
    row: Option<int>,
    low: int,
    high: int,
) -> bool
    decreases commands.len(),
{
    if commands.len() == 0 {
        true
    } else {
        &&& writes_on(commands.first(), row, low, high)
        &&& write_within(commands.drop_first(), row_after(commands.first(), row), low, high)
    }
}

/// Commands that write within some rows write within every range of rows
/// that holds these.
pub proof fn lemma_write_within_wider(
    commands: Seq<CommandView>,
    row: Option<int>,
    low: int,
    high: int,
    lower: int,
    higher: int,
)
    requires
        write_within(commands, row, low, high),
        lower <= low,
        high <= higher,
    ensures
        write_within(commands, row, lower, higher),
    decreases commands.len(),
{
    if commands.len() > 0 {
        lemma_write_within_wider(
            commands.drop_first(),
            row_after(commands.first(), row),
            low,
            high,
            lower,
            higher,
        );
    }
}

/// Commands that write within some rows without knowing where the cursor
/// is do so wherever it is.
pub proof fn lemma_write_within_anywhere(
    commands: Seq<CommandView>,
    row: Option<int>,
    low: int,
    high: int,
)
    requires
        write_within(commands, None, low, high),
    ensures
        write_within(commands, row, low, high),
    decreases commands.len(),
{
    if commands.len() > 0 {
        let first = commands.first();
        if row_after(first, None) is None {
            lemma_write_within_anywhere(commands.drop_first(), row_after(first, row), low, high);
        }
    }
}

/// Two lists of commands one after the other: the cursor ends where the
/// second list leaves it when started where the first one ended, and both
/// together write within the rows that each of them writes within.
pub proof fn lemma_write_within_both(
    first: Seq<CommandView>,
    second: Seq<CommandView>,
    row: Option<int>,
    low: int,
    high: int,
)
    ensures
        row_after_all(first + second, row) == row_after_all(second, row_after_all(first, row)),
        write_within(first, row, low, high) && write_within(
            second,
            row_after_all(first, row),
            low,
            high,
        ) ==> write_within(first + second, row, low, high),
    decreases first.len(),
{
    if first.len() == 0 {
        assert(first + second =~= second);
    } else {
        assert((first + second).drop_first() =~= first.drop_first() + second);
        lemma_write_within_both(
            first.drop_first(),
            second,
            row_after(first.first(), row),
            low,
            high,
        );
    }
}

/// Two lists of commands that each write within some rows, the second
/// without knowing where the cursor is, do so one after the other.
pub proof fn lemma_write_within_then(
    first: Seq<CommandView>,
    second: Seq<CommandView>,
    row: Option<int>,
    low: int,
    high: int,
)
    requires
        write_within(first, row, low, high),
        write_within(second, None, low, high),
    ensures
        write_within(first + second, row, low, high),
{
    lemma_write_within_anywhere(second, row_after_all(first, row), low, high);
    lemma_write_within_both(first, second, row, low, high);
}

} // verus!
