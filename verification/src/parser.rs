//! Bytes of terminal output as the actions that they ask for.
use vstd::prelude::*;

use crate::sgr::inner;

verus! {

/// The escape sequence parser, carried as an opaque value.
#[verifier::external_type_specification]
#[verifier::external_body]
pub struct ExParser<const OSC_RAW_BUF_SIZE: usize>(vte::Parser<OSC_RAW_BUF_SIZE>);

/// The parameters of a control sequence, as the parser keeps them.
#[verifier::external_type_specification]
#[verifier::external_body]
pub struct ExParams(vte::Params);

/// What a stretch of output asks the terminal to do.
#[derive(Debug)]
pub enum Action {
    /// Draw a character.
    Print(char),
    /// Execute a control character.
    Execute(u8),
    /// A control sequence.
    Csi { params: Vec<Vec<u16>>, intermediates: Vec<u8>, ignore: bool, action: char },
    /// An escape sequence.
    Esc { intermediates: Vec<u8>, ignore: bool, byte: u8 },
    /// An operating system command.
    Osc { fields: Vec<Vec<u8>>, bell_terminated: bool },
}

/// The plain values of an [`Action`].
pub enum ActionView {
    Print(char),
    Execute(u8),
    Csi { params: Seq<Seq<u16>>, intermediates: Seq<u8>, ignore: bool, action: char },
    Esc { intermediates: Seq<u8>, ignore: bool, byte: u8 },
    Osc { fields: Seq<Seq<u8>>, bell_terminated: bool },
}

impl View for Action {
    type V = ActionView;

    open spec fn view(&self) -> ActionView {
        match *self {
            Action::Print(c) => ActionView::Print(c),
            Action::Execute(byte) => ActionView::Execute(byte),
            Action::Csi { params, intermediates, ignore, action } => ActionView::Csi {
                params: inner(params@),
                intermediates: intermediates@,
                ignore,
                action,
            },
            Action::Esc { intermediates, ignore, byte } => ActionView::Esc {
                intermediates: intermediates@,
                ignore,
                byte,
            },
            Action::Osc { fields, bell_terminated } => ActionView::Osc {
                fields: inner(fields@),
                bell_terminated,
            },
        }
    }
}

/// The plain values of some actions.
pub open spec fn action_views(actions: Seq<Action>) -> Seq<ActionView> {
    Seq::new(actions.len(), |i: int| actions[i]@)
}

/// The bytes that a parser has been fed since it was made.
pub uninterp spec fn parser_input(parser: vte::Parser) -> Seq<u8>;

/// The calls that `vte::Parser::advance` makes for `byte` when the parser has
/// been fed `input` before, in their order. Device control strings are left
/// out.
pub uninterp spec fn vte_actions(input: Seq<u8>, byte: u8) -> Seq<ActionView>;

/// The numbers that `vte::Params` holds, grouped by parameter.
pub uninterp spec fn param_values(params: vte::Params) -> Seq<Seq<u16>>;

/// Collects the calls of the parser.
pub struct ActionSink {
    pub actions: Vec<Action>,
}

/// A copy of some bytes.
fn copied(bytes: &[u8]) -> (copy: Vec<u8>)
    ensures
        copy@ == bytes@,
{
    let mut copy: Vec<u8> = Vec::new();
    copy.extend_from_slice(bytes);
    assert(copy@ =~= bytes@);
    copy
}

/// `vte::Params::iter` gives the parameters in order, each as the slice of
/// its numbers.
#[verifier::external_body]
fn read_params(params: &vte::Params) -> (values: Vec<Vec<u16>>)
    ensures
        inner(values@) == param_values(*params),
{
    params.iter().map(|param| param.to_vec()).collect()
}

impl vte::Perform for ActionSink {
    fn print(&mut self, c: char)
        ensures
            final(self).actions@ == old(self).actions@.push(Action::Print(c)),
    {
        self.actions.push(Action::Print(c));
    }

    fn execute(&mut self, byte: u8)
        ensures
            final(self).actions@ == old(self).actions@.push(Action::Execute(byte)),
    {
        self.actions.push(Action::Execute(byte));
    }

    fn csi_dispatch(
        &mut self,
        params: &vte::Params,
        intermediates: &[u8],
        ignore: bool,
        action: char,
    )
        ensures
            action_views(final(self).actions@) == action_views(old(self).actions@).push(
                ActionView::Csi {
                    params: param_values(*params),
                    intermediates: intermediates@,
                    ignore,
                    action,
                },
            ),
    {
        let ghost before = self.actions@;
        self.actions.push(
            Action::Csi {
                params: read_params(params),
                intermediates: copied(intermediates),
                ignore,
                action,
            },
        );
        assert(action_views(self.actions@) =~= action_views(before).push(self.actions@.last()@));
    }

    fn esc_dispatch(&mut self, intermediates: &[u8], ignore: bool, byte: u8)
        ensures
            action_views(final(self).actions@) == action_views(old(self).actions@).push(
                ActionView::Esc { intermediates: intermediates@, ignore, byte },
            ),
    {
        let ghost before = self.actions@;
        self.actions.push(Action::Esc { intermediates: copied(intermediates), ignore, byte });
        assert(action_views(self.actions@) =~= action_views(before).push(self.actions@.last()@));
    }

    fn osc_dispatch(&mut self, params: &[&[u8]], bell_terminated: bool)
        ensures
            action_views(final(self).actions@) == action_views(old(self).actions@).push(
                ActionView::Osc {
                    fields: Seq::new(params@.len(), |i: int| params@[i]@),
                    bell_terminated,
                },
            ),
    {
        let ghost before = self.actions@;
        let mut copies: Vec<Vec<u8>> = Vec::new();
        let mut i: usize = 0;
        while i < params.len()
            invariant
                i <= params.len(),
                copies.len() == i,
                forall|k: int| 0 <= k < i ==> (#[trigger] copies@[k])@ == params@[k]@,
            decreases params.len() - i,
        {
            copies.push(copied(params[i]));
            i += 1;
        }
        assert(inner(copies@) =~= Seq::new(params@.len(), |i: int| params@[i]@));
        self.actions.push(Action::Osc { fields: copies, bell_terminated });
        assert(action_views(self.actions@) =~= action_views(before).push(self.actions@.last()@));
    }
}

/// `vte::Parser::new` makes a parser that has been fed nothing.
#[verifier::external_body]
pub(crate) fn new_parser() -> (parser: vte::Parser)
    ensures
        parser_input(parser) == Seq::<u8>::empty(),
{
    vte::Parser::new()
}

/// `vte::Parser::advance` feeds one byte to the parser, which makes its calls
/// on the sink. Which calls those are is left to their name: they depend on
/// the bytes fed so far and on this one, and on nothing else.
#[verifier::external_body]
pub(crate) fn advance(parser: &mut vte::Parser, sink: &mut ActionSink, byte: u8)
    ensures
        parser_input(*final(parser)) == parser_input(*old(parser)).push(byte),
        action_views(final(sink).actions@) == action_views(old(sink).actions@) + vte_actions(
            parser_input(*old(parser)),
            byte,
        ),
{
    parser.advance(sink, byte);
}

} // verus!
