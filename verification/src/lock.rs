//! A combination lock that is opened by entering its code piece by piece.

use vstd::prelude::*;

verus! {

/// The states of the lock.
#[derive(Clone, Copy, Debug, PartialEq, Eq, Structural)]
pub enum State {
    /// Waiting for more of the code.
    Locked,
    /// What was entered cannot become the code.
    Failed,
    /// The code was entered.
    Unlocked,
}

/// What the one who runs the lock is to do in a state.
#[derive(Clone, Copy, Debug, PartialEq, Eq, Structural)]
pub enum Action {
    /// Read a line and hand it to the lock.
    ReadLine,
    /// Show that the entry failed.
    ShowFailed,
    /// Show that the lock is open, and stop.
    ShowUnlocked,
}

/// What a lock is to its callers.
pub struct LockView {
    pub code: Seq<char>,
    pub entry: Seq<char>,
    pub state: State,
}

/// The state of a locked lock with code `code` once `entry` has been entered.
pub open spec fn state_after(code: Seq<char>, entry: Seq<char>) -> State {
    if entry == code {
        State::Unlocked
    } else if !entry.is_prefix_of(code) {
        State::Failed
    } else {
        State::Locked
    }
}

impl LockView {
    /// What is to be done in this state.
    pub open spec fn action(self) -> Action {
        match self.state {
            State::Locked => Action::ReadLine,
            State::Failed => Action::ShowFailed,
            State::Unlocked => Action::ShowUnlocked,
        }
    }

    /// The lock after its action was carried out. For a locked lock `line` is
    /// the line that was read, or `None` where reading failed.
    pub open spec fn step(self, line: Option<Seq<char>>) -> LockView {
        match self.state {
            State::Locked => match line {
                Some(text) => LockView {
                    code: self.code,
                    entry: self.entry + text,
                    state: state_after(self.code, self.entry + text),
                },
                None => self,
            },
            State::Failed => LockView {
                code: self.code,
                entry: Seq::empty(),
                state: State::Locked,
            },
            State::Unlocked => self,
        }
    }
}

/// A combination lock.
pub struct Lock {
    code: String,
    entry: String,
    state: State,
}

/// Whether `whole` begins with `part`.
pub fn starts_with(whole: &str, part: &str) -> (begins: bool)
    ensures
        begins == part@.is_prefix_of(whole@),
{
    let n = part.unicode_len();
    if n > whole.unicode_len() {
        return false;
    }
    let mut i: usize = 0;
    while i < n
        invariant
            i <= n,
            n == part@.len(),
            n <= whole@.len(),
            forall|k: int| 0 <= k < i ==> part@[k] == whole@[k],
        decreases n - i,
    {
        if part.get_char(i) != whole.get_char(i) {
            assert(whole@.subrange(0, n as int)[i as int] != part@[i as int]);
            return false;
        }
        i += 1;
    }
    assert(whole@.subrange(0, n as int) =~= part@);
    true
}

impl View for Lock {
    type V = LockView;

    closed spec fn view(&self) -> LockView {
        LockView { code: self.code@, entry: self.entry@, state: self.state }
    }
}

impl Lock {
    /// A locked lock with the given code and nothing entered.
    pub fn new(code: &str) -> (lock: Lock)
        ensures
            lock@ == (LockView { code: code@, entry: Seq::empty(), state: State::Locked }),
    {
        Lock { code: String::from_str(code), entry: String::new(), state: State::Locked }
    }

    /// The state of the lock.
    pub fn state(&self) -> (state: State)
        ensures
            state == self@.state,
    {
        self.state
    }

    /// What is to be done in the state of the lock.
    pub fn action(&self) -> (action: Action)
        ensures
            action == self@.action(),
    {
        match self.state {
            State::Locked => Action::ReadLine,
            State::Failed => Action::ShowFailed,
            State::Unlocked => Action::ShowUnlocked,
        }
    }

    /// Takes the lock to its next state once its action was carried out. For
    /// a locked lock `line` is the line that was read, or `None` where reading
    /// failed; in the other states it is not looked at.
    pub fn step(&mut self, line: Option<&str>)
        ensures
            final(self)@ == old(self)@.step(
                match line {
                    Some(text) => Some(text@),
                    None => None,
                },
            ),
    {
        match self.state {
            State::Locked => {
                if let Some(text) = line {
                    self.entry.append(text);
                    if self.entry == self.code {
                        self.state = State::Unlocked;
                    } else if !starts_with(self.code.as_str(), self.entry.as_str()) {
                        self.state = State::Failed;
                    }
                }
            },
            State::Failed => {
                self.entry = String::new();
                self.state = State::Locked;
            },
            State::Unlocked => {},
        }
    }
}

} // verus!
