//! The actions the application can be asked to perform.

use vstd::prelude::*;

verus! {

/// The different actions that can be performed by the application.
#[derive(Debug, Clone, PartialEq, Eq)]
pub enum Action {
    /// Add a character to the input buffer.
    AddInputChar(char),
    /// Delete the character before the cursor from the input buffer.
    DeletePrevChar,
    /// Delete the previous word from the input buffer.
    DeletePrevWord,
    /// Delete the character after the cursor from the input buffer.
    DeleteNextChar,
    /// Move the cursor to the character before the current cursor position.
    GoToPrevChar,
    /// Move the cursor to the character after the current cursor position.
    GoToNextChar,
    /// Move the cursor to the start of the input buffer.
    GoToInputStart,
    /// Move the cursor to the end of the input buffer.
    GoToInputEnd,
    /// Render the terminal user interface screen.
    Render,
    /// Resize the terminal user interface screen to the given dimensions.
    Resize(u16, u16),
    /// Clear the terminal user interface screen.
    ClearScreen,
    /// Add the entry under the cursor to the selection and move down.
    ToggleSelectionDown,
    /// Add the entry under the cursor to the selection and move up.
    ToggleSelectionUp,
    /// Confirm the current selection.
    ConfirmSelection,
    /// Select the entry under the cursor and pass the pressed key through.
    SelectPassthrough(String),
    /// Select the entry under the cursor and exit the application.
    SelectAndExit,
    /// Select the next entry in the currently focused list.
    SelectNextEntry,
    /// Select the previous entry in the currently focused list.
    SelectPrevEntry,
    /// Select the next page of entries in the currently focused list.
    SelectNextPage,
    /// Select the previous page of entries in the currently focused list.
    SelectPrevPage,
    /// Select the next preview command.
    SelectNextPreview,
    /// Select the previous preview command.
    SelectPrevPreview,
    /// Select the preview command with the given index.
    SelectPreview(usize),
    /// Select the next run command.
    SelectNextRun,
    /// Select the previous run command.
    SelectPrevRun,
    /// Select the run command with the given index.
    SelectRun(usize),
    /// Select the next transition command.
    SelectNextTransition,
    /// Select the previous transition command.
    SelectPrevTransition,
    /// Select the transition command with the given index.
    SelectTransition(usize),
    /// Copy the currently selected entry to the clipboard.
    CopyEntryToClipboard,
    /// Scroll the preview up by one line.
    ScrollPreviewUp,
    /// Scroll the preview down by one line.
    ScrollPreviewDown,
    /// Scroll the preview up by half a page.
    ScrollPreviewHalfPageUp,
    /// Scroll the preview down by half a page.
    ScrollPreviewHalfPageDown,
    /// Scroll the log up.
    ScrollLogUp,
    /// Scroll the log down.
    ScrollLogDown,
    /// Open the currently selected entry in the default application.
    OpenEntry,
    /// Tick the application state.
    Tick,
    /// Suspend the application.
    Suspend,
    /// Resume the application.
    Resume,
    /// Quit the application.
    Quit,
    /// Toggle the help bar.
    ToggleHelp,
    /// Toggle logs.
    ToggleLogs,
    /// Toggle the preview panel.
    TogglePreview,
    /// Toggle the remote control channel.
    ToggleRemoteControl,
    /// Toggle the transition mode.
    ToggleTransition,
    /// Toggle the preview-commands mode.
    TogglePreviewCommands,
    /// Toggle the run-commands mode.
    ToggleRunCommands,
    /// Signal an error with the given message.
    Error(String),
    /// No operation.
    NoOp,
}

} // verus!
