//! Messages, their canonical encoding and content hash, and the attestation
//! record of one message.

use vstd::prelude::*;
use crate::cbor::append_self_describe;
use crate::cbor::append_struct_header;
use crate::cbor::append_text;
use crate::cbor::append_text_field;
use crate::cbor::append_u64_field;
use crate::cbor::append_u8_field;
use crate::cbor::cbor_field;
use crate::cbor::cbor_map_header;
use crate::cbor::lemma_append_two;
use crate::cbor::cbor_self_describe;
use crate::cbor::cbor_text;
use crate::cbor::cbor_unsigned;
use crate::digest::content_hash;
use crate::digest::hash_bytes;
use crate::order::Key;
use crate::principal::principal_views;
use crate::principal::Principal;

verus! {

/// The quality-of-service flag of a message.
#[derive(Clone, Copy, Debug, PartialEq, Eq, Structural)]
pub struct Sqos {
    pub reveal: u8,
}

/// The session a message belongs to: how it is to be answered, and the
/// identifier under which the answer is matched.
#[derive(Clone, Copy, Debug, PartialEq, Eq, Structural)]
pub struct Session {
    pub res_type: u8,
    pub id: u64,
}

/// What a message asks for: an action of a contract, and the payload.
#[derive(Debug)]
pub struct Content {
    pub contract: String,
    pub action: String,
    pub data: String,
}

/// A message between two chains.
#[derive(Debug)]
pub struct Message {
    pub from_chain: String,
    pub to_chain: String,
    pub sender: String,
    pub signer: String,
    pub sqos: Sqos,
    pub content: Content,
    pub session: Session,
}

/// What the target of a dispatched message is told about its origin.
#[derive(Debug)]
pub struct Context {
    pub id: u64,
    pub from_chain: String,
    pub sender: String,
    pub signer: String,
    pub contract: String,
    pub action: String,
    pub session: Session,
}

/// The mathematical value of a `Content`.
pub struct ContentView {
    pub contract: Seq<char>,
    pub action: Seq<char>,
    pub data: Seq<char>,
}

/// The mathematical value of a `Message`.
pub struct MessageView {
    pub from_chain: Seq<char>,
    pub to_chain: Seq<char>,
    pub sender: Seq<char>,
    pub signer: Seq<char>,
    pub sqos: Sqos,
    pub content: ContentView,
    pub session: Session,
}

/// The mathematical value of a `Context`.
pub struct ContextView {
    pub id: u64,
    pub from_chain: Seq<char>,
    pub sender: Seq<char>,
    pub signer: Seq<char>,
    pub contract: Seq<char>,
    pub action: Seq<char>,
    pub session: Session,
}

impl Sqos {
    /// The encoding of the flag: a record of one field.
    pub open spec fn encoding(self) -> Seq<u8> {
        cbor_map_header(1) + cbor_field("reveal"@, cbor_unsigned(self.reveal as u64))
    }

    fn append_to(&self, out: &mut Vec<u8>)
        ensures
            final(out)@ == old(out)@ + self.encoding(),
    {
        append_struct_header(out, "Sqos", 1);
        append_u8_field(out, "reveal", self.reveal);
        proof {
            lemma_append_two(
                old(out)@,
                cbor_map_header(1),
                cbor_field("reveal"@, cbor_unsigned(self.reveal as u64)),
            );
        }
    }
}

impl Session {
    /// The encoding of the session: a record of two fields.
    pub open spec fn encoding(self) -> Seq<u8> {
        cbor_map_header(2) + cbor_field("res_type"@, cbor_unsigned(self.res_type as u64))
            + cbor_field("id"@, cbor_unsigned(self.id))
    }

    fn append_to(&self, out: &mut Vec<u8>)
        ensures
            final(out)@ == old(out)@ + self.encoding(),
    {
        append_struct_header(out, "Session", 2);
        append_u8_field(out, "res_type", self.res_type);
        append_u64_field(out, "id", self.id);
        proof {
            let kind = cbor_field("res_type"@, cbor_unsigned(self.res_type as u64));
            let id = cbor_field("id"@, cbor_unsigned(self.id));
            lemma_append_two(old(out)@, cbor_map_header(2), kind);
            lemma_append_two(old(out)@, cbor_map_header(2) + kind, id);
        }
    }
}

impl ContentView {
    /// The encoding of the content: a record of three fields.
    pub open spec fn encoding(self) -> Seq<u8> {
        cbor_map_header(3) + cbor_field("contract"@, cbor_text(self.contract)) + cbor_field(
            "action"@,
            cbor_text(self.action),
        ) + cbor_field("data"@, cbor_text(self.data))
    }
}

impl View for Content {
    type V = ContentView;

    open spec fn view(&self) -> ContentView {
        ContentView { contract: self.contract@, action: self.action@, data: self.data@ }
    }
}

impl Clone for Content {
    fn clone(&self) -> (copy: Self)
        ensures
            copy@ == self@,
    {
        Content {
            contract: self.contract.clone(),
            action: self.action.clone(),
            data: self.data.clone(),
        }
    }
}

impl Content {
    fn append_to(&self, out: &mut Vec<u8>)
        ensures
            final(out)@ == old(out)@ + self@.encoding(),
    {
        append_struct_header(out, "Content", 3);
        append_text_field(out, "contract", self.contract.as_str());
        append_text_field(out, "action", self.action.as_str());
        append_text_field(out, "data", self.data.as_str());
        proof {
            let contract = cbor_field("contract"@, cbor_text(self.contract@));
            let action = cbor_field("action"@, cbor_text(self.action@));
            let data = cbor_field("data"@, cbor_text(self.data@));
            lemma_append_two(old(out)@, cbor_map_header(3), contract);
            lemma_append_two(old(out)@, cbor_map_header(3) + contract, action);
            lemma_append_two(old(out)@, cbor_map_header(3) + contract + action, data);
        }
    }
}

impl MessageView {
    /// The four texts that open the record of a message.
    pub open spec fn encoded_route(self) -> Seq<u8> {
        cbor_field("from_chain"@, cbor_text(self.from_chain)) + cbor_field(
            "to_chain"@,
            cbor_text(self.to_chain),
        ) + cbor_field("sender"@, cbor_text(self.sender)) + cbor_field(
            "signer"@,
            cbor_text(self.signer),
        )
    }

    /// The canonical encoding of the message: the self-describing tag, then
    /// a record of the seven fields in the order of their declaration, each
    /// under its name.
    pub open spec fn encoding(self) -> Seq<u8> {
        cbor_self_describe() + cbor_map_header(7) + self.encoded_route() + cbor_field(
            "sqos"@,
            self.sqos.encoding(),
        ) + cbor_field("content"@, self.content.encoding()) + cbor_field(
            "session"@,
            self.session.encoding(),
        )
    }

    /// The content hash of the message: the hash of its canonical encoding.
    pub open spec fn hash(self) -> Seq<char> {
        content_hash(self.encoding())
    }
}

impl View for Message {
    type V = MessageView;

    open spec fn view(&self) -> MessageView {
        MessageView {
            from_chain: self.from_chain@,
            to_chain: self.to_chain@,
            sender: self.sender@,
            signer: self.signer@,
            sqos: self.sqos,
            content: self.content@,
            session: self.session,
        }
    }
}

impl Clone for Message {
    fn clone(&self) -> (copy: Self)
        ensures
            copy@ == self@,
    {
        Message {
            from_chain: self.from_chain.clone(),
            to_chain: self.to_chain.clone(),
            sender: self.sender.clone(),
            signer: self.signer.clone(),
            sqos: self.sqos,
            content: self.content.clone(),
            session: self.session,
        }
    }
}

impl Message {
    /// The canonical encoding of this message.
    pub fn encode(&self) -> (bytes: Vec<u8>)
        ensures
            bytes@ == self@.encoding(),
    {
        let mut out: Vec<u8> = Vec::new();
        append_self_describe(&mut out);
        assert(out@ =~= cbor_self_describe());
        append_struct_header(&mut out, "Message", 7);
        let ghost opened = out@;
        append_text_field(&mut out, "from_chain", self.from_chain.as_str());
        append_text_field(&mut out, "to_chain", self.to_chain.as_str());
        append_text_field(&mut out, "sender", self.sender.as_str());
        append_text_field(&mut out, "signer", self.signer.as_str());
        proof {
            let from = cbor_field("from_chain"@, cbor_text(self.from_chain@));
            let to = cbor_field("to_chain"@, cbor_text(self.to_chain@));
            let sender = cbor_field("sender"@, cbor_text(self.sender@));
            let signer = cbor_field("signer"@, cbor_text(self.signer@));
            lemma_append_two(opened, from, to);
            lemma_append_two(opened, from + to, sender);
            lemma_append_two(opened, from + to + sender, signer);
        }
        let ghost routed = out@;
        append_text(&mut out, "sqos");
        self.sqos.append_to(&mut out);
        proof {
            lemma_append_two(routed, cbor_text("sqos"@), self.sqos.encoding());
        }
        let ghost flagged = out@;
        append_text(&mut out, "content");
        self.content.append_to(&mut out);
        proof {
            lemma_append_two(flagged, cbor_text("content"@), self@.content.encoding());
        }
        let ghost filled = out@;
        append_text(&mut out, "session");
        self.session.append_to(&mut out);
        proof {
            lemma_append_two(filled, cbor_text("session"@), self.session.encoding());
        }
        out
    }

    /// The content hash of this message: the SHA-256 digest of its canonical
    /// encoding, in lower-case hex.
    pub fn to_hash(&self) -> (hash: String)
        ensures
            hash@ == self@.hash(),
    {
        let data = self.encode();
        hash_bytes(data.as_slice())
    }
}

impl View for Context {
    type V = ContextView;

    open spec fn view(&self) -> ContextView {
        ContextView {
            id: self.id,
            from_chain: self.from_chain@,
            sender: self.sender@,
            signer: self.signer@,
            contract: self.contract@,
            action: self.action@,
            session: self.session,
        }
    }
}

/// The context under which the message in slot `id` is executed: the slot's
/// number, and the origin, target and session of the message.
pub open spec fn context_of(id: u64, message: MessageView) -> ContextView {
    ContextView {
        id,
        from_chain: message.from_chain,
        sender: message.sender,
        signer: message.signer,
        contract: message.content.contract,
        action: message.content.action,
        session: message.session,
    }
}

/// Builds the execution context of `message`, received in slot `id`.
pub fn get_context(id: u64, message: Message) -> (context: Context)
    ensures
        context@ == context_of(id, message@),
{
    Context {
        id,
        from_chain: message.from_chain,
        sender: message.sender,
        signer: message.signer,
        contract: message.content.contract,
        action: message.content.action,
        session: message.session,
    }
}

/// The mathematical value of a `PendingMessage`.
pub struct PendingView {
    pub message: MessageView,
    pub validators: Seq<Seq<u8>>,
}

/// A message that waits for its quorum, with the validators that have
/// attested it, each once, in the order of their attestations.
pub struct PendingMessage {
    message: Message,
    validators: Vec<Principal>,
}

impl View for PendingMessage {
    type V = PendingView;

    closed spec fn view(&self) -> PendingView {
        PendingView { message: self.message@, validators: principal_views(self.validators@) }
    }
}

impl PendingMessage {
    #[verifier::type_invariant]
    spec fn attested_once(self) -> bool {
        principal_views(self.validators@).no_duplicates()
    }

    /// The record of a message that `validator` is the first to attest.
    pub fn new(message: Message, validator: Principal) -> (pending: Self)
        ensures
            pending@ == (PendingView { message: message@, validators: seq![validator@] }),
    {
        let mut validators: Vec<Principal> = Vec::new();
        validators.push(validator);
        assert(principal_views(validators@) =~= seq![validator@]);
        PendingMessage { message, validators }
    }

    /// The message.
    pub fn message(&self) -> (message: &Message)
        ensures
            message@ == self@.message,
    {
        &self.message
    }

    /// The validators that have attested the message, each once.
    pub fn validators(&self) -> (list: &Vec<Principal>)
        ensures
            principal_views(list@) == self@.validators,
            self@.validators.no_duplicates(),
    {
        proof {
            use_type_invariant(self);
        }
        &self.validators
    }

    /// The number of validators that have attested the message.
    pub fn count(&self) -> (n: usize)
        ensures
            n == self@.validators.len(),
            self@.validators.no_duplicates(),
    {
        proof {
            use_type_invariant(self);
        }
        self.validators.len()
    }

    /// Whether `validator` has attested the message.
    pub fn has_attested(&self, validator: &Principal) -> (found: bool)
        ensures
            found == self@.validators.contains(validator@),
    {
        let mut i: usize = 0;
        while i < self.validators.len()
            invariant
                i <= self.validators.len(),
                forall|j: int| 0 <= j < i ==> self@.validators[j] != validator@,
            decreases self.validators.len() - i,
        {
            if self.validators[i].same(validator) {
                assert(self@.validators[i as int] == validator@);
                return true;
            }
            i += 1;
        }
        false
    }

    /// Adds the attestation of `validator`, which has not attested before.
    pub fn attest(self, validator: Principal) -> (pending: Self)
        requires
            !self@.validators.contains(validator@),
        ensures
            pending@ == (PendingView {
                message: self@.message,
                validators: self@.validators.push(validator@),
            }),
    {
        proof {
            use_type_invariant(&self);
        }
        let ghost before = principal_views(self.validators@);
        let PendingMessage { message, validators } = self;
        let mut validators = validators;
        validators.push(validator);
        proof {
            let after = principal_views(validators@);
            assert(after =~= before.push(validator@));
            assert forall|i: int, j: int| 0 <= i < after.len() && 0 <= j < after.len() && i != j implies after[i]
                != after[j] by {
                if i < before.len() && j < before.len() {
                    assert(before[i] != before[j]);
                } else if i < before.len() {
                    assert(before.contains(before[i]));
                } else {
                    assert(before.contains(before[j]));
                }
            }
        }
        PendingMessage { message, validators }
    }
}

impl Clone for PendingMessage {
    fn clone(&self) -> (copy: Self)
        ensures
            copy@ == self@,
    {
        proof {
            use_type_invariant(self);
        }
        let mut validators: Vec<Principal> = Vec::new();
        let mut i: usize = 0;
        while i < self.validators.len()
            invariant
                i <= self.validators.len(),
                validators@.len() == i,
                forall|j: int| 0 <= j < i ==> (#[trigger] validators@[j])@ == self.validators@[j]@,
            decreases self.validators.len() - i,
        {
            validators.push(self.validators[i].duplicate());
            i += 1;
        }
        assert(principal_views(validators@) =~= principal_views(self.validators@));
        PendingMessage { message: self.message.clone(), validators }
    }
}

} // verus!
