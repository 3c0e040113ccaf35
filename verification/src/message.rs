//! The message builder and the command line that it stands for.

use crate::escape::{escaped, percent_escape};
use crate::text::{converts_to, join, joined, lemma_joined_push};
use vstd::prelude::*;
use vstd::string::StringExecFns;

verus! {

/// What a message holds, as plain text.
pub struct MessageView {
    pub subject: Seq<char>,
    pub to: Seq<Seq<char>>,
    pub cc: Seq<Seq<char>>,
    pub bcc: Seq<Seq<char>>,
    pub body: Seq<char>,
    pub attachment: Seq<char>,
}

/// The segment `segment` if it is `present`, and nothing otherwise.
pub open spec fn when(present: bool, segment: Seq<char>) -> Seq<Seq<char>> {
    if present {
        seq![segment]
    } else {
        Seq::empty()
    }
}

impl MessageView {
    /// The message with nothing set.
    pub open spec fn empty() -> MessageView {
        MessageView {
            subject: Seq::empty(),
            to: Seq::empty(),
            cc: Seq::empty(),
            bcc: Seq::empty(),
            body: Seq::empty(),
            attachment: Seq::empty(),
        }
    }

    /// The primary recipients, joined by `;` and escaped. This segment carries
    /// no field name.
    pub open spec fn recipients(self) -> Seq<char> {
        escaped(joined(self.to, ";"@))
    }

    /// The segments of the parameter, in their fixed order: the primary
    /// recipients if their text is not empty, then `cc=`, `bcc=`, `subject=`
    /// and `body=`, each only if the field was given.
    pub open spec fn segments(self) -> Seq<Seq<char>> {
        when(self.recipients().len() > 0, self.recipients())
            + when(self.cc.len() > 0, "cc="@ + escaped(joined(self.cc, ";"@)))
            + when(self.bcc.len() > 0, "bcc="@ + escaped(joined(self.bcc, ";"@)))
            + when(self.subject.len() > 0, "subject="@ + escaped(self.subject))
            + when(self.body.len() > 0, "body="@ + escaped(self.body))
    }

    /// The assembled parameter: the segments with `&` between them.
    pub open spec fn parameter(self) -> Seq<char> {
        joined(self.segments(), "&"@)
    }

    /// The attachment switch and the escaped path, if a path was given.
    pub open spec fn attachment_flags(self) -> Seq<Seq<char>> {
        if self.attachment.len() > 0 {
            seq!["/a"@, escaped(self.attachment)]
        } else {
            Seq::empty()
        }
    }

    /// The arguments of the whole command: a new item of class `ipm.note`,
    /// the parameter, and the attachment switch.
    pub open spec fn arguments(self) -> Seq<Seq<char>> {
        seq!["/c"@, "ipm.note"@, "/m"@, self.parameter()] + self.attachment_flags()
    }
}

/// With recipients, CC, BCC, subject and body all given, the parameter is the
/// recipients followed by the four named fields in their order, each after
/// `&`.
pub proof fn lemma_parameter_of_all_fields(m: MessageView)
    requires
        m.recipients().len() > 0,
        m.cc.len() > 0,
        m.bcc.len() > 0,
        m.subject.len() > 0,
        m.body.len() > 0,
    ensures
        m.parameter() == m.recipients() + "&cc="@ + escaped(joined(m.cc, ";"@)) + "&bcc="@
            + escaped(joined(m.bcc, ";"@)) + "&subject="@ + escaped(m.subject) + "&body="@
            + escaped(m.body),
{
    reveal_strlit("&");
    reveal_strlit("cc=");
    reveal_strlit("bcc=");
    reveal_strlit("subject=");
    reveal_strlit("body=");
    reveal_strlit("&cc=");
    reveal_strlit("&bcc=");
    reveal_strlit("&subject=");
    reveal_strlit("&body=");
    assert("&cc="@ =~= "&"@ + "cc="@);
    assert("&bcc="@ =~= "&"@ + "bcc="@);
    assert("&subject="@ =~= "&"@ + "subject="@);
    assert("&body="@ =~= "&"@ + "body="@);
    let to = m.recipients();
    let cc = "cc="@ + escaped(joined(m.cc, ";"@));
    let bcc = "bcc="@ + escaped(joined(m.bcc, ";"@));
    let subject = "subject="@ + escaped(m.subject);
    let body = "body="@ + escaped(m.body);
    assert(m.segments() =~= seq![to, cc, bcc, subject, body]);
    let s1 = seq![to];
    let s2 = s1.push(cc);
    let s3 = s2.push(bcc);
    let s4 = s3.push(subject);
    let s5 = s4.push(body);
    assert(s5 =~= m.segments());
    assert(joined(s1, "&"@) == to);
    lemma_joined_push(s1, "&"@, cc);
    lemma_joined_push(s2, "&"@, bcc);
    lemma_joined_push(s3, "&"@, subject);
    lemma_joined_push(s4, "&"@, body);
    assert(m.parameter() =~= m.recipients() + "&cc="@ + escaped(joined(m.cc, ";"@)) + "&bcc="@
        + escaped(joined(m.bcc, ";"@)) + "&subject="@ + escaped(m.subject) + "&body="@ + escaped(
        m.body,
    ));
}

/// With a subject and a body and no recipient of any kind, the parameter
/// starts with the subject: no `&` and no bare segment goes before it.
pub proof fn lemma_parameter_of_subject_and_body(m: MessageView)
    requires
        m.to.len() == 0,
        m.cc.len() == 0,
        m.bcc.len() == 0,
        m.subject.len() > 0,
        m.body.len() > 0,
    ensures
        m.parameter() == "subject="@ + escaped(m.subject) + "&body="@ + escaped(m.body),
{
    reveal_strlit("&");
    reveal_strlit("body=");
    reveal_strlit("&body=");
    assert("&body="@ =~= "&"@ + "body="@);
    let subject = "subject="@ + escaped(m.subject);
    let body = "body="@ + escaped(m.body);
    assert(m.recipients().len() == 0);
    assert(m.segments() =~= seq![subject].push(body));
    lemma_joined_push(seq![subject], "&"@, body);
    assert(joined(seq![subject], "&"@) == subject);
    assert(m.parameter() =~= "subject="@ + escaped(m.subject) + "&body="@ + escaped(m.body));
}

/// The parameter is empty exactly when no field contributes a segment, and
/// there are attachment flags exactly when an attachment was given. A message
/// with nothing set has an empty parameter and no attachment flags.
pub proof fn lemma_parameter_empty(m: MessageView)
    ensures
        m.parameter().len() == 0 <==> m.recipients().len() == 0 && m.cc.len() == 0 && m.bcc.len()
            == 0 && m.subject.len() == 0 && m.body.len() == 0,
        m.attachment_flags().len() == 0 <==> m.attachment.len() == 0,
        MessageView::empty().parameter() == Seq::<char>::empty(),
        MessageView::empty().attachment_flags() == Seq::<Seq<char>>::empty(),
{
    reveal_strlit("cc=");
    reveal_strlit("bcc=");
    reveal_strlit("subject=");
    reveal_strlit("body=");
    let segments = m.segments();
    if segments.len() > 0 {
        assert(segments.last().len() > 0);
        assert(joined(segments, "&"@).len() >= segments.last().len());
    }
    assert(MessageView::empty().segments() =~= Seq::empty());
}

/// A draft of an e-mail message for Outlook.
#[derive(Clone, Debug, PartialEq, Eq)]
pub struct MessageBuilder {
    subj: String,
    to: Vec<String>,
    cc: Vec<String>,
    bcc: Vec<String>,
    body: String,
    file: String,
}

impl View for MessageBuilder {
    type V = MessageView;

    closed spec fn view(&self) -> MessageView {
        MessageView {
            subject: self.subj@,
            to: self.to.deep_view(),
            cc: self.cc.deep_view(),
            bcc: self.bcc.deep_view(),
            body: self.body@,
            attachment: self.file@,
        }
    }
}

impl Default for MessageBuilder {
    fn default() -> (res: Self)
        ensures
            res@ == MessageView::empty(),
    {
        MessageBuilder::new()
    }
}

impl MessageBuilder {
    /// Creates a new `MessageBuilder`, with nothing set.
    #[inline]
    #[must_use]
    pub fn new() -> (res: Self)
        ensures
            res@ == MessageView::empty(),
    {
        let res = MessageBuilder {
            subj: String::new(),
            to: Vec::new(),
            cc: Vec::new(),
            bcc: Vec::new(),
            body: String::new(),
            file: String::new(),
        };
        assert(res@.to =~= Seq::empty());
        assert(res@.cc =~= Seq::empty());
        assert(res@.bcc =~= Seq::empty());
        res
    }

    /// Adds a subject to the email.
    ///
    /// A message has one subject: this is called at most once per builder.
    #[inline]
    #[must_use]
    pub fn with_subject<S>(self, subj: S) -> (res: Self) where S: Into<String>
        requires
            self@.subject.len() == 0,
        ensures
            exists|text: String| #[trigger]
                converts_to(subj, text) && res@ == (MessageView { subject: text@, ..self@ }),
    {
        let text: String = subj.into();
        assert(converts_to(subj, text));
        MessageBuilder {
            subj: text,
            to: self.to,
            cc: self.cc,
            bcc: self.bcc,
            body: self.body,
            file: self.file,
        }
    }

    /// Adds a recipient to the email.
    #[inline]
    #[must_use]
    pub fn with_recipient<S>(self, to: S) -> (res: Self) where S: Into<String>
        ensures
            exists|text: String| #[trigger]
                converts_to(to, text) && res@ == (MessageView { to: self@.to.push(text@), ..self@ }),
    {
        let text: String = to.into();
        assert(converts_to(to, text));
        let mut list = self.to;
        list.push(text);
        assert(list.deep_view() =~= self@.to.push(text@));
        MessageBuilder {
            subj: self.subj,
            to: list,
            cc: self.cc,
            bcc: self.bcc,
            body: self.body,
            file: self.file,
        }
    }

    /// Adds a CC recipient to the email.
    #[inline]
    #[must_use]
    pub fn with_recipient_cc<S>(self, cc: S) -> (res: Self) where S: Into<String>
        ensures
            exists|text: String| #[trigger]
                converts_to(cc, text) && res@ == (MessageView { cc: self@.cc.push(text@), ..self@ }),
    {
        let text: String = cc.into();
        assert(converts_to(cc, text));
        let mut list = self.cc;
        list.push(text);
        assert(list.deep_view() =~= self@.cc.push(text@));
        MessageBuilder {
            subj: self.subj,
            to: self.to,
            cc: list,
            bcc: self.bcc,
            body: self.body,
            file: self.file,
        }
    }

    /// Adds a BCC recipient to the email.
    #[inline]
    #[must_use]
    pub fn with_recipient_bcc<S>(self, bcc: S) -> (res: Self) where S: Into<String>
        ensures
            exists|text: String| #[trigger]
                converts_to(bcc, text) && res@ == (MessageView {
                    bcc: self@.bcc.push(text@),
                    ..self@
                }),
    {
        let text: String = bcc.into();
        assert(converts_to(bcc, text));
        let mut list = self.bcc;
        list.push(text);
        assert(list.deep_view() =~= self@.bcc.push(text@));
        MessageBuilder {
            subj: self.subj,
            to: self.to,
            cc: self.cc,
            bcc: list,
            body: self.body,
            file: self.file,
        }
    }

    /// Adds a body to the email.
    ///
    /// A message has one body: this is called at most once per builder.
    #[inline]
    #[must_use]
    pub fn with_body<S>(self, body: S) -> (res: Self) where S: Into<String>
        requires
            self@.body.len() == 0,
        ensures
            exists|text: String| #[trigger]
                converts_to(body, text) && res@ == (MessageView { body: text@, ..self@ }),
    {
        let text: String = body.into();
        assert(converts_to(body, text));
        MessageBuilder {
            subj: self.subj,
            to: self.to,
            cc: self.cc,
            bcc: self.bcc,
            body: text,
            file: self.file,
        }
    }

    /// Adds an attachment to the email.
    ///
    /// Outlook's command line takes a single file: this is called at most
    /// once per builder.
    #[inline]
    #[must_use]
    pub fn with_attachment<S>(self, file: S) -> (res: Self) where S: Into<String>
        requires
            self@.attachment.len() == 0,
        ensures
            exists|text: String| #[trigger]
                converts_to(file, text) && res@ == (MessageView { attachment: text@, ..self@ }),
    {
        let text: String = file.into();
        assert(converts_to(file, text));
        MessageBuilder {
            subj: self.subj,
            to: self.to,
            cc: self.cc,
            bcc: self.bcc,
            body: self.body,
            file: text,
        }
    }

    /// The subject, empty if none was given.
    pub fn subject(&self) -> (res: &str)
        ensures
            res@ == self@.subject,
    {
        self.subj.as_str()
    }

    /// The primary recipients, in the order in which they were added.
    pub fn recipients(&self) -> (res: &[String])
        ensures
            res.deep_view() == self@.to,
    {
        let res = self.to.as_slice();
        assert(res.deep_view() =~= self@.to);
        res
    }

    /// The CC recipients, in the order in which they were added.
    pub fn recipients_cc(&self) -> (res: &[String])
        ensures
            res.deep_view() == self@.cc,
    {
        let res = self.cc.as_slice();
        assert(res.deep_view() =~= self@.cc);
        res
    }

    /// The BCC recipients, in the order in which they were added.
    pub fn recipients_bcc(&self) -> (res: &[String])
        ensures
            res.deep_view() == self@.bcc,
    {
        let res = self.bcc.as_slice();
        assert(res.deep_view() =~= self@.bcc);
        res
    }

    /// The body, empty if none was given.
    pub fn body(&self) -> (res: &str)
        ensures
            res@ == self@.body,
    {
        self.body.as_str()
    }

    /// The path of the attachment, empty if none was given.
    pub fn attachment(&self) -> (res: &str)
        ensures
            res@ == self@.attachment,
    {
        self.file.as_str()
    }

    /// Assembles the parameter that follows `/m`: the escaped fields in their
    /// fixed order, separated by `&`.
    pub fn parameter(&self) -> (res: String)
        ensures
            res@ == self@.parameter(),
    {
        let mut s = percent_escape(join(&self.to, ";").as_str());
        let ghost mut segments = when(s@.len() > 0, s@);
        proof {
            reveal_strlit("cc=");
            reveal_strlit("bcc=");
            reveal_strlit("subject=");
            reveal_strlit("body=");
            assert(joined(segments, "&"@) =~= s@);
        }
        if !self.cc.is_empty() {
            let value = join(&self.cc, ";");
            proof {
                lemma_push_segment(segments, s@, "cc="@ + escaped(value@));
                segments = segments.push("cc="@ + escaped(value@));
            }
            push_field(&mut s, "cc=", value.as_str());
        }
        if !self.bcc.is_empty() {
            let value = join(&self.bcc, ";");
            proof {
                lemma_push_segment(segments, s@, "bcc="@ + escaped(value@));
                segments = segments.push("bcc="@ + escaped(value@));
            }
            push_field(&mut s, "bcc=", value.as_str());
        }
        if !self.subj.as_str().is_empty() {
            proof {
                lemma_push_segment(segments, s@, "subject="@ + escaped(self.subj@));
                segments = segments.push("subject="@ + escaped(self.subj@));
            }
            push_field(&mut s, "subject=", self.subj.as_str());
        }
        if !self.body.as_str().is_empty() {
            proof {
                lemma_push_segment(segments, s@, "body="@ + escaped(self.body@));
                segments = segments.push("body="@ + escaped(self.body@));
            }
            push_field(&mut s, "body=", self.body.as_str());
        }
        assert(segments =~= self@.segments());
        s
    }

    /// The arguments that attach the file: `/a` and the escaped path, or
    /// nothing if no attachment was given.
    pub fn attachment_flags(&self) -> (res: Vec<String>)
        ensures
            res.deep_view() == self@.attachment_flags(),
    {
        let mut flags: Vec<String> = Vec::new();
        if !self.file.as_str().is_empty() {
            flags.push(String::from_str("/a"));
            flags.push(percent_escape(self.file.as_str()));
        }
        assert(flags.deep_view() =~= self@.attachment_flags());
        flags
    }

    /// The arguments of the whole command, in the order in which Outlook
    /// takes them.
    pub fn arguments(&self) -> (res: Vec<String>)
        ensures
            res.deep_view() == self@.arguments(),
    {
        let mut args: Vec<String> = Vec::new();
        args.push(String::from_str("/c"));
        args.push(String::from_str("ipm.note"));
        args.push(String::from_str("/m"));
        args.push(self.parameter());
        let mut flags = self.attachment_flags();
        let ghost before = args.deep_view();
        let ghost added = flags.deep_view();
        args.append(&mut flags);
        assert(args.deep_view() =~= before + added);
        assert(before =~= seq!["/c"@, "ipm.note"@, "/m"@, self@.parameter()]);
        args
    }

    /// Decides how the message is opened: with the program at `executable`
    /// and the message's arguments, or not at all where no executable was
    /// found.
    pub fn invocation(self, executable: Option<String>) -> (res: Result<Invocation, LaunchError>)
        ensures
            match executable {
                Some(path) => res matches Ok(command) && command.program@ == path@
                    && command.arguments.deep_view() == self@.arguments(),
                None => res == Err::<Invocation, LaunchError>(LaunchError::ResourceNotFound),
            },
    {
        match executable {
            Some(path) => Ok(Invocation { program: path, arguments: self.arguments() }),
            None => Err(LaunchError::ResourceNotFound),
        }
    }
}

/// The text `so_far` with one more segment: after `&`, unless it is the
/// first.
pub open spec fn with_segment(so_far: Seq<char>, segment: Seq<char>) -> Seq<char> {
    if so_far.len() == 0 {
        segment
    } else {
        so_far + "&"@ + segment
    }
}

proof fn lemma_push_segment(segments: Seq<Seq<char>>, so_far: Seq<char>, segment: Seq<char>)
    requires
        so_far == joined(segments, "&"@),
        so_far.len() == 0 <==> segments.len() == 0,
        segment.len() > 0,
    ensures
        with_segment(so_far, segment) == joined(segments.push(segment), "&"@),
        with_segment(so_far, segment).len() > 0,
{
    lemma_joined_push(segments, "&"@, segment);
}

fn push_field(s: &mut String, name: &str, value: &str)
    ensures
        final(s)@ == with_segment(old(s)@, name@ + escaped(value@)),
{
    if !s.as_str().is_empty() {
        s.push('&');
        proof {
            reveal_strlit("&");
            assert("&"@ =~= seq!['&']);
        }
    }
    s.append(name);
    let text = percent_escape(value);
    s.append(text.as_str());
    assert(s@ =~= with_segment(old(s)@, name@ + escaped(value@)));
}

/// The command that opens a message: a program and its arguments.
#[derive(Clone, Debug, PartialEq, Eq)]
pub struct Invocation {
    pub program: String,
    pub arguments: Vec<String>,
}

/// Why a message could not be opened.
#[derive(Clone, Copy, Debug, PartialEq, Eq, Structural)]
pub enum LaunchError {
    /// No Outlook executable is registered on this machine.
    ResourceNotFound,
}

} // verus!
