//! Control messages to the daemon, and the sending side of the channel that
//! carries them.
use vstd::prelude::*;

use std::sync::mpsc::{Receiver, RecvError, SendError, Sender};

verus! {

/// A control message to the daemon.
#[derive(Debug, PartialEq)]
pub enum IpcEvent {
    /// Reload the state
    Reload,
    /// Set a new image now
    Switch {
        /// Only switch the wallpaper for this monitor
        monitor: Option<String>,
    },
    /// Select an image (or folder of images) which will be shown
    Select {
        path: String,
        /// whether to keep the old images
        keep_old: bool,
    },
}

#[verifier::external_type_specification]
#[verifier::external_body]
#[verifier::reject_recursive_types(T)]
pub struct ExSender<T>(Sender<T>);

#[verifier::external_type_specification]
#[verifier::external_body]
#[verifier::reject_recursive_types(T)]
pub struct ExReceiver<T>(Receiver<T>);

#[verifier::external_type_specification]
#[verifier::external_body]
#[verifier::reject_recursive_types(T)]
pub struct ExSendError<T>(SendError<T>);

#[verifier::external_type_specification]
#[verifier::external_body]
pub struct ExRecvError(RecvError);

/// Relies on `Sender::send`, which hands the value to the receiving side or
/// fails when that side is gone.
#[verifier::external_body]
fn send_event(s: &Sender<IpcEvent>, event: IpcEvent) -> (r: Result<(), SendError<IpcEvent>>) {
    s.send(event)
}

/// Relies on `Receiver::recv`, which blocks until a value comes or fails when
/// the sending side is gone.
#[verifier::external_body]
fn receive_ack(r: &Receiver<()>) -> (res: Result<(), RecvError>) {
    r.recv()
}

/// Why a message could not be handed over.
#[derive(Clone, Copy, Debug, PartialEq, Eq, Structural)]
pub enum ClientError {
    /// The writer that sends messages to the daemon is gone.
    WriterGone,
    /// The writer stopped before it reported the message written.
    NotAcknowledged,
}

/// The sending side of the control channel: messages go to a writer that
/// sends them to the daemon, and the writer reports each one written.
pub struct Client {
    inner: Sender<IpcEvent>,
    // waits until the message was actually sent
    fin_recv: Receiver<()>,
}

impl Client {
    /// Where messages are handed to the writer.
    pub closed spec fn sender(&self) -> Sender<IpcEvent> {
        self.inner
    }

    /// Where the writer reports messages written.
    pub closed spec fn acks(&self) -> Receiver<()> {
        self.fin_recv
    }

    /// A client over a writer that takes messages from `inner` and reports
    /// each one written on `fin_recv`.
    pub fn new(inner: Sender<IpcEvent>, fin_recv: Receiver<()>) -> (r: Client)
        ensures
            r.sender() == inner,
            r.acks() == fin_recv,
    {
        Client { inner, fin_recv }
    }

    /// Hands `event` to the writer and waits until it reports the message
    /// written to the socket; the daemon may not have read it yet.
    pub fn send(&self, event: IpcEvent) -> (r: Result<(), ClientError>) {
        match send_event(&self.inner, event) {
            Ok(()) => {},
            Err(_) => {
                return Err(ClientError::WriterGone);
            },
        }
        match receive_ack(&self.fin_recv) {
            Ok(()) => Ok(()),
            Err(_) => Err(ClientError::NotAcknowledged),
        }
    }
}

} // verus!
