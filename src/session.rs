use vstd::prelude::*;
use crate::calc_ui::make_ui;
use crate::engine::CalcEngine;
use crate::names::bytes_equal;
use crate::ui::Interface;

verus! {

/// Lines of history kept on screen.
pub const HISTORY_LEN: usize = 14;

pub open spec fn enter_command() -> Seq<u8> {
    seq![99u8, 109u8, 100u8, 95u8, 101u8, 110u8, 116u8, 101u8, 114u8]
}

pub open spec fn radians_command() -> Seq<u8> {
    seq![99u8, 109u8, 100u8, 95u8, 115u8, 101u8, 116u8, 95u8, 97u8, 110u8, 103u8, 108u8, 101u8, 95u8,
        114u8, 97u8, 100u8, 105u8, 97u8, 110u8, 115u8]
}

pub open spec fn degrees_command() -> Seq<u8> {
    seq![99u8, 109u8, 100u8, 95u8, 115u8, 101u8, 116u8, 95u8, 97u8, 110u8, 103u8, 108u8, 101u8, 95u8,
        100u8, 101u8, 103u8, 114u8, 101u8, 101u8, 115u8]
}

/// The views of the lines of a history.
pub open spec fn lines_view(v: Seq<Vec<u8>>) -> Seq<Seq<u8>> {
    v.map_values(|l: Vec<u8>| l@)
}

/// The calculator as a whole: keyboard, engine, the line being typed, and the
/// history of entered lines and their results, newest first.
pub struct Calculator {
    pub interface: Interface,
    pub history: Vec<Vec<u8>>,
    pub user_input: Vec<u8>,
    pub engine: CalcEngine,
}

impl Calculator {
    pub open spec fn wf(&self) -> bool {
        &&& self.history@.len() == HISTORY_LEN
        &&& self.engine.wf()
        &&& self.interface.layout_wf()
    }

    pub fn new() -> (r: Calculator)
        ensures
            r.wf(),
            r.user_input@ == Seq::<u8>::empty(),
            forall|i: int| 0 <= i < HISTORY_LEN ==> (#[trigger] r.history@[i])@ == Seq::<u8>::empty(),
    {
        let mut history: Vec<Vec<u8>> = Vec::new();
        let mut i: usize = 0;
        while i < HISTORY_LEN
            invariant
                0 <= i <= HISTORY_LEN,
                history@.len() == i,
                forall|j: int| 0 <= j < i ==> (#[trigger] history@[j])@ == Seq::<u8>::empty(),
            decreases HISTORY_LEN - i,
        {
            history.push(Vec::new());
            i = i + 1;
        }
        Calculator { interface: make_ui(), history, user_input: Vec::new(), engine: CalcEngine::new() }
    }

    /// Handles the command of a key. Enter moves the typed line into the
    /// history, above it a line for its result, and hands the line back for
    /// evaluation; the angle-unit commands switch the engine; any other
    /// command is typed text.
    pub fn handle_command(&mut self, command: &Vec<u8>) -> (r: Option<Vec<u8>>)
        requires
            old(self).wf(),
        ensures
            final(self).wf(),
            final(self).interface == old(self).interface,
            final(self).engine.variables == old(self).engine.variables,
            final(self).engine.functions == old(self).engine.functions,
            final(self).engine.prev_answer == old(self).engine.prev_answer,
            command@ == enter_command() ==> {
                &&& r matches Some(line) && line@ == old(self).user_input@
                &&& final(self).user_input@ == Seq::<u8>::empty()
                &&& lines_view(final(self).history@) == seq![Seq::<u8>::empty(), old(self).user_input@]
                    + lines_view(old(self).history@).subrange(0, HISTORY_LEN - 2)
                &&& final(self).engine.use_radians == old(self).engine.use_radians
            },
            command@ == radians_command() ==> r is None && final(self).engine.use_radians
                && final(self).user_input == old(self).user_input && final(self).history == old(self).history,
            command@ == degrees_command() ==> r is None && !final(self).engine.use_radians
                && final(self).user_input == old(self).user_input && final(self).history == old(self).history,
            command@ != enter_command() && command@ != radians_command() && command@ != degrees_command() ==> {
                &&& r is None
                &&& final(self).user_input@ == old(self).user_input@ + command@
                &&& final(self).history == old(self).history
                &&& final(self).engine.use_radians == old(self).engine.use_radians
            },
    {
        let enter: Vec<u8> = vec![99u8, 109u8, 100u8, 95u8, 101u8, 110u8, 116u8, 101u8, 114u8];
        let radians: Vec<u8> = vec![99u8, 109u8, 100u8, 95u8, 115u8, 101u8, 116u8, 95u8, 97u8, 110u8, 103u8, 108u8,
            101u8, 95u8, 114u8, 97u8, 100u8, 105u8, 97u8, 110u8, 115u8];
        let degrees: Vec<u8> = vec![99u8, 109u8, 100u8, 95u8, 115u8, 101u8, 116u8, 95u8, 97u8, 110u8, 103u8, 108u8,
            101u8, 95u8, 100u8, 101u8, 103u8, 114u8, 101u8, 101u8, 115u8];
        proof {
            assert(enter@ =~= enter_command());
            assert(radians@ =~= radians_command());
            assert(degrees@ =~= degrees_command());
        }
        if bytes_equal(command, &enter) {
            let line = self.user_input.clone();
            let mut history: Vec<Vec<u8>> = Vec::new();
            history.push(Vec::new());
            history.push(self.user_input.clone());
            let mut i: usize = 0;
            while i < HISTORY_LEN - 2
                invariant
                    0 <= i <= HISTORY_LEN - 2,
                    *self == *old(self),
                    self.history@.len() == HISTORY_LEN,
                    history@.len() == i + 2,
                    lines_view(history@) =~= seq![Seq::<u8>::empty(), self.user_input@]
                        + lines_view(self.history@).subrange(0, i as int),
                decreases HISTORY_LEN - 2 - i,
            {
                let l = self.history[i].clone();
                let ghost before = history@;
                history.push(l);
                proof {
                    assert(lines_view(history@) =~= lines_view(before).push(l@));
                    assert(lines_view(self.history@).subrange(0, i + 1) =~= lines_view(self.history@).subrange(0, i as int).push(l@));
                }
                i = i + 1;
            }
            self.history = history;
            self.user_input = Vec::new();
            Some(line)
        } else if bytes_equal(command, &radians) {
            self.engine.set_radians(true);
            None
        } else if bytes_equal(command, &degrees) {
            self.engine.set_radians(false);
            None
        } else {
            let mut i: usize = 0;
            let ghost start = self.user_input@;
            while i < command.len()
                invariant
                    0 <= i <= command@.len(),
                    self.history == old(self).history,
                    self.engine == old(self).engine,
                    self.interface == old(self).interface,
                    self.user_input@ =~= start + command@.subrange(0, i as int),
                decreases command@.len() - i,
            {
                self.user_input.push(command[i]);
                i = i + 1;
            }
            proof {
                assert(command@.subrange(0, command@.len() as int) =~= command@);
            }
            None
        }
    }

    /// Writes the result of the last entered line, marked with `>`, into
    /// the newest history line.
    pub fn show_result(&mut self, text: &Vec<u8>)
        requires
            old(self).wf(),
        ensures
            final(self).wf(),
            lines_view(final(self).history@) == lines_view(old(self).history@).update(0, seq![62u8] + text@),
            final(self).user_input == old(self).user_input,
            final(self).interface == old(self).interface,
            final(self).engine == old(self).engine,
    {
        let mut line: Vec<u8> = Vec::new();
        line.push(62u8);
        let mut i: usize = 0;
        while i < text.len()
            invariant
                0 <= i <= text@.len(),
                *self == *old(self),
                line@ =~= seq![62u8] + text@.subrange(0, i as int),
            decreases text@.len() - i,
        {
            line.push(text[i]);
            i = i + 1;
        }
        proof {
            assert(text@.subrange(0, text@.len() as int) =~= text@);
        }
        let ghost before = self.history@;
        self.history.set(0, line);
        proof {
            assert(lines_view(self.history@) =~= lines_view(before).update(0, seq![62u8] + text@));
        }
    }

    /// Removes the last typed byte, if any.
    pub fn delete_last(&mut self)
        requires
            old(self).wf(),
        ensures
            final(self).wf(),
            final(self).user_input@ == if old(self).user_input@.len() == 0 {
                old(self).user_input@
            } else {
                old(self).user_input@.drop_last()
            },
            final(self).history == old(self).history,
            final(self).interface == old(self).interface,
            final(self).engine == old(self).engine,
    {
        self.user_input.pop();
    }
}

} // verus!
