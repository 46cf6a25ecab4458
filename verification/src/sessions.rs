//! Upload sessions of the LocalSend receiver: a prepare-upload request opens a
//! session, the user's answer accepts or rejects it, an accepted session issues
//! one token per file, and an upload is admitted only with its file's token.
use vstd::prelude::*;
use crate::common::{
    Files, generate_random_string, Session, Sessions, TokenAndUploadFile, UploadFile, UploadQuery,
    FILE_TOKEN_LENGTH, SESSION_LENGTH,
};
use crate::strmap::StrMap;
use crate::text::{concat3, is_hex_char, is_hex_text, trim_end_char, trim_end_matches_char};

verus! {

/// A session that waits for the user's answer.
pub open spec fn is_pending(s: Session) -> bool {
    &&& !s.accepted
    &&& !s.userFeedback
    &&& !s.finished
    &&& s.fileIdtoTokenAndUploadFile@ == Map::<Seq<char>, TokenAndUploadFile>::empty()
}

/// A session the user accepted, holding `files`.
pub open spec fn is_accepted_with(s: Session, files: Map<Seq<char>, TokenAndUploadFile>) -> bool {
    &&& s.accepted
    &&& s.userFeedback
    &&& !s.finished
    &&& s.fileIdtoTokenAndUploadFile@ == files
}

/// What an upload request is answered: the name of the file it may write, or why not.
pub open spec fn upload_decision(
    sessions: Map<Seq<char>, Session>,
    session_id: Seq<char>,
    file_id: Seq<char>,
    token: Seq<char>,
) -> Result<Seq<char>, Seq<char>> {
    if !sessions.dom().contains(session_id) {
        Err("Session not found"@)
    } else if !(sessions[session_id].accepted && sessions[session_id].userFeedback) {
        Err("Session not accepted or user feedback not received"@)
    } else if !sessions[session_id].fileIdtoTokenAndUploadFile@.dom().contains(file_id) {
        Err("Invalid fileId"@)
    } else if sessions[session_id].fileIdtoTokenAndUploadFile@[file_id].token@ != token {
        Err("Invalid token"@)
    } else {
        Ok(sessions[session_id].fileIdtoTokenAndUploadFile@[file_id].uploadFile.fileName@)
    }
}

/// The effect of the user's answer on a session that exists: an acceptance
/// keeps the issued tokens, a rejection drops them.
pub open spec fn answered(s: Session, accept: bool, result: Session) -> bool {
    &&& result.accepted == accept
    &&& result.userFeedback
    &&& !result.finished
    &&& result.fileIdtoTokenAndUploadFile@ == (if accept {
        s.fileIdtoTokenAndUploadFile@
    } else {
        Map::<Seq<char>, TokenAndUploadFile>::empty()
    })
}

/// What a prepare-upload request waits for, one look at its session.
pub enum PrepareUploadStep {
    /// No answer yet: the files are handed back for the next look.
    Waiting(Files),
    /// Accepted: the token of each file id.
    Accepted(StrMap<String>),
    /// Rejected: the session is gone.
    Rejected,
}

/// The reply to a prepare-upload request.
pub enum PrepareUploadReply {
    Accepted { session_id: String, files: StrMap<String> },
    Rejected,
    TimedOut,
}

impl PrepareUploadReply {
    /// The error text of a reply that is not an acceptance.
    pub fn error_message(&self) -> (r: Option<String>)
        ensures
            match self {
                PrepareUploadReply::Accepted { .. } => r is None,
                PrepareUploadReply::Rejected => r matches Some(m) && m@
                    == "User rejected the request"@,
                PrepareUploadReply::TimedOut => r matches Some(m) && m@
                    == "Timeout waiting for user to accept the request"@,
            },
    {
        match self {
            PrepareUploadReply::Accepted { .. } => None,
            PrepareUploadReply::Rejected => Some("User rejected the request".to_owned()),
            PrepareUploadReply::TimedOut => Some(
                "Timeout waiting for user to accept the request".to_owned(),
            ),
        }
    }
}

/// The session after tokens are issued: each file id of `files` (in entry
/// order) holds the token at the same position of `tokens` and its file.
pub open spec fn issued(
    files: Seq<(Seq<char>, UploadFile)>,
    tokens: Seq<String>,
    result: Map<Seq<char>, TokenAndUploadFile>,
) -> bool {
    &&& forall|k: Seq<char>| #[trigger] result.dom().contains(k) <==> exists|i: int|
        0 <= i < files.len() && #[trigger] files[i].0 == k
    &&& forall|i: int|
        0 <= i < files.len() ==> #[trigger] result[files[i].0].token == tokens[i]
            && result[files[i].0].uploadFile == files[i].1
}

/// The reply's token map agrees with the stored tokens.
pub open spec fn tokens_reply(
    stored: Map<Seq<char>, TokenAndUploadFile>,
    reply: Map<Seq<char>, String>,
) -> bool {
    &&& reply.dom() == stored.dom()
    &&& forall|k: Seq<char>| #[trigger] reply.dom().contains(k) ==> reply[k] == stored[k].token
}

impl Sessions {
    /// Opens a session that waits for the user's answer.
    pub fn open_session(&mut self, session_id: String)
        ensures
            final(self).sessions@.dom().contains(session_id@),
            is_pending(final(self).sessions@[session_id@]),
            final(self).sessions@.remove(session_id@) == old(self).sessions@.remove(session_id@),
    {
        let ghost id = session_id@;
        let s = Session {
            accepted: false,
            userFeedback: false,
            finished: false,
            fileIdtoTokenAndUploadFile: StrMap::new(),
        };
        self.sessions.insert(session_id, s);
        assert(self.sessions@.remove(id) =~= old(self).sessions@.remove(id));
    }

    /// Opens the session of a new prepare-upload request under a fresh random
    /// id (32 random bytes in hexadecimal) and gives the id back.
    pub fn begin_prepare_upload(&mut self) -> (id: String)
        ensures
            id@.len() == 64,
            forall|i: int| 0 <= i < id@.len() ==> #[trigger] is_hex_char(id@[i]),
            final(self).sessions@.dom().contains(id@),
            is_pending(final(self).sessions@[id@]),
            final(self).sessions@.remove(id@) == old(self).sessions@.remove(id@),
    {
        let id = generate_random_string(SESSION_LENGTH);
        self.open_session(id.clone());
        id
    }

    /// Records the user's answer to a session; an unknown session id changes nothing.
    pub fn respond(&mut self, session_id: &String, accept: bool)
        ensures
            !old(self).sessions@.dom().contains(session_id@) ==> final(self).sessions@
                == old(self).sessions@,
            old(self).sessions@.dom().contains(session_id@) ==> {
                &&& final(self).sessions@.dom().contains(session_id@)
                &&& answered(
                    old(self).sessions@[session_id@],
                    accept,
                    final(self).sessions@[session_id@],
                )
                &&& final(self).sessions@.remove(session_id@) == old(self).sessions@.remove(
                    session_id@,
                )
            },
    {
        let ghost id = session_id@;
        match self.sessions.remove(session_id) {
            Some(s) => {
                let files = if accept {
                    s.fileIdtoTokenAndUploadFile
                } else {
                    StrMap::new()
                };
                let updated = Session {
                    accepted: accept,
                    userFeedback: true,
                    finished: false,
                    fileIdtoTokenAndUploadFile: files,
                };
                self.sessions.insert(session_id.clone(), updated);
                assert(self.sessions@.remove(id) =~= old(self).sessions@.remove(id));
            },
            None => {
                assert(self.sessions@ =~= old(self).sessions@);
            },
        }
    }

    /// Stores an accepted session whose files get the given tokens, one per
    /// file in entry order, and gives the token of each file id back.
    pub fn accept_upload(&mut self, session_id: &String, files: Files, tokens: Vec<String>) -> (reply: StrMap<String>)
        requires
            tokens@.len() == files.files.entry_seq().len(),
        ensures
            final(self).sessions@.dom().contains(session_id@),
            final(self).sessions@.remove(session_id@) == old(self).sessions@.remove(session_id@),
            final(self).sessions@[session_id@].accepted,
            final(self).sessions@[session_id@].userFeedback,
            !final(self).sessions@[session_id@].finished,
            issued(
                files.files.entry_seq(),
                tokens@,
                final(self).sessions@[session_id@].fileIdtoTokenAndUploadFile@,
            ),
            tokens_reply(final(self).sessions@[session_id@].fileIdtoTokenAndUploadFile@, reply@),
    {
        let ghost id = session_id@;
        let n = files.files.len();
        let ghost fs = files.files.entry_seq();
        let mut es = files.files.into_entries();
        let mut stored: StrMap<TokenAndUploadFile> = StrMap::new();
        let mut reply: StrMap<String> = StrMap::new();
        let mut m = n;
        while m > 0
            invariant
                n == fs.len(),
                tokens@.len() == n,
                m <= n,
                es@.len() == m,
                forall|i: int| 0 <= i < m ==> (#[trigger] es@[i]).0@ == fs[i].0 && es@[i].1 == fs[i].1,
                forall|i: int, j: int| 0 <= i < j < n ==> #[trigger] fs[i].0 != #[trigger] fs[j].0,
                forall|k: Seq<char>| #[trigger] stored@.dom().contains(k) <==> exists|i: int|
                    m <= i < n && #[trigger] fs[i].0 == k,
                forall|i: int|
                    m <= i < n ==> #[trigger] stored@[fs[i].0].token == tokens@[i]
                        && stored@[fs[i].0].uploadFile == fs[i].1,
                reply@.dom() == stored@.dom(),
                forall|k: Seq<char>| #[trigger] reply@.dom().contains(k) ==> reply@[k]
                    == stored@[k].token,
            decreases m,
        {
            let (fid, file) = es.pop().unwrap();
            m = m - 1;
            let token = tokens[m].clone();
            let ghost k = fid@;
            let ghost old_stored = stored@;
            let ghost old_reply = reply@;
            reply.insert(fid.clone(), token.clone());
            stored.insert(fid, TokenAndUploadFile { token, uploadFile: file });
            assert(k == fs[m as int].0);
            assert forall|kk: Seq<char>| #[trigger] stored@.dom().contains(kk) <==> exists|i: int|
                m <= i < n && #[trigger] fs[i].0 == kk by {
                if kk == k {
                    assert(fs[m as int].0 == kk);
                } else if stored@.dom().contains(kk) {
                    assert(old_stored.dom().contains(kk));
                } else if exists|i: int| m <= i < n && #[trigger] fs[i].0 == kk {
                    let i = choose|i: int| m <= i < n && #[trigger] fs[i].0 == kk;
                    assert(i != m);
                    assert(old_stored.dom().contains(kk));
                }
            }
            assert forall|i: int|
                m <= i < n implies #[trigger] stored@[fs[i].0].token == tokens@[i]
                && stored@[fs[i].0].uploadFile == fs[i].1 by {
                if i != m {
                    assert(fs[i].0 != fs[m as int].0);
                }
            }
            assert(reply@.dom() =~= stored@.dom());
        }
        let session = Session {
            accepted: true,
            userFeedback: true,
            finished: false,
            fileIdtoTokenAndUploadFile: stored,
        };
        self.sessions.insert(session_id.clone(), session);
        assert(self.sessions@.remove(id) =~= old(self).sessions@.remove(id));
        reply
    }

    /// Drops a rejected session.
    pub fn reject_upload(&mut self, session_id: &String)
        ensures
            final(self).sessions@ == old(self).sessions@.remove(session_id@),
    {
        self.sessions.remove(session_id);
    }

    /// One look at the session of a prepare-upload request: without an answer
    /// it keeps waiting; an acceptance issues a fresh random token per file;
    /// a rejection drops the session.
    pub fn prepare_upload_step(&mut self, session_id: &String, files: Files) -> (step: PrepareUploadStep)
        ensures
            ({
                let known = old(self).sessions@.dom().contains(session_id@);
                let s = old(self).sessions@[session_id@];
                match step {
                    PrepareUploadStep::Waiting(fs) => {
                        &&& (!known || !s.userFeedback)
                        &&& final(self).sessions@ == old(self).sessions@
                        &&& fs.files@ == files.files@
                    },
                    PrepareUploadStep::Rejected => {
                        &&& known && s.userFeedback && !s.accepted
                        &&& final(self).sessions@ == old(self).sessions@.remove(session_id@)
                    },
                    PrepareUploadStep::Accepted(reply) => {
                        &&& known && s.userFeedback && s.accepted
                        &&& final(self).sessions@.dom().contains(session_id@)
                        &&& final(self).sessions@.remove(session_id@) == old(self).sessions@.remove(
                            session_id@,
                        )
                        &&& is_accepted_with(
                            final(self).sessions@[session_id@],
                            final(self).sessions@[session_id@].fileIdtoTokenAndUploadFile@,
                        )
                        &&& final(self).sessions@[session_id@].fileIdtoTokenAndUploadFile@.dom()
                            == files.files@.dom()
                        &&& forall|k: Seq<char>|
                            #[trigger] files.files@.dom().contains(k)
                                ==> final(self).sessions@[session_id@].fileIdtoTokenAndUploadFile@[k].uploadFile
                                == files.files@[k]
                        &&& tokens_reply(
                            final(self).sessions@[session_id@].fileIdtoTokenAndUploadFile@,
                            reply@,
                        )
                        &&& forall|k: Seq<char>| #[trigger] reply@.dom().contains(k) ==> reply@[k]@.len() == 64
                            && is_hex_text(reply@[k]@)
                    },
                }
            }),
    {
        let (feedback, accepted) = match self.sessions.get(session_id) {
            Some(s) => (s.userFeedback, s.accepted),
            None => (false, false),
        };
        if !feedback {
            return PrepareUploadStep::Waiting(files);
        }
        if !accepted {
            self.reject_upload(session_id);
            return PrepareUploadStep::Rejected;
        }
        let n = files.files.len();
        let ghost fs = files.files.entry_seq();
        let ghost fmap = files.files@;
        let mut tokens: Vec<String> = Vec::new();
        for _i in 0..n
            invariant
                tokens@.len() == _i,
                forall|j: int| 0 <= j < tokens@.len() ==> (#[trigger] tokens@[j])@.len() == 64
                    && is_hex_text(tokens@[j]@),
        {
            tokens.push(generate_random_string(FILE_TOKEN_LENGTH));
        }
        let reply = self.accept_upload(session_id, files, tokens);
        proof {
            let stored = self.sessions@[session_id@].fileIdtoTokenAndUploadFile@;
            assert forall|k: Seq<char>| stored.dom().contains(k) <==> fmap.dom().contains(k) by {
                if fmap.dom().contains(k) {
                    let i = choose|i: int| 0 <= i < fs.len() && #[trigger] fs[i].0 == k;
                    assert(fs[i].0 == k);
                }
                if stored.dom().contains(k) {
                    let i = choose|i: int| 0 <= i < fs.len() && #[trigger] fs[i].0 == k;
                    assert(fmap.dom().contains(fs[i].0));
                }
            }
            assert(stored.dom() =~= fmap.dom());
            assert forall|k: Seq<char>| #[trigger] fmap.dom().contains(k) implies stored[k].uploadFile
                == fmap[k] by {
                let i = choose|i: int| 0 <= i < fs.len() && #[trigger] fs[i].0 == k;
                assert(stored[fs[i].0].uploadFile == fs[i].1);
            }
            assert forall|k: Seq<char>| #[trigger] reply@.dom().contains(k) implies reply@[k]@.len() == 64
                && is_hex_text(reply@[k]@) by {
                assert(stored.dom().contains(k));
                let i = choose|i: int| 0 <= i < fs.len() && #[trigger] fs[i].0 == k;
                assert(stored[fs[i].0].token == tokens@[i]);
            }
        }
        PrepareUploadStep::Accepted(reply)
    }

    /// The name of the file an upload request may write, or the reason it is refused.
    pub fn check_upload(&self, query: &UploadQuery) -> (r: Result<String, String>)
        ensures
            match r {
                Ok(name) => upload_decision(
                    self.sessions@,
                    query.sessionId@,
                    query.fileId@,
                    query.token@,
                ) == Ok::<Seq<char>, Seq<char>>(name@),
                Err(e) => upload_decision(
                    self.sessions@,
                    query.sessionId@,
                    query.fileId@,
                    query.token@,
                ) == Err::<Seq<char>, Seq<char>>(e@),
            },
    {
        match self.sessions.get(&query.sessionId) {
            None => Err("Session not found".to_owned()),
            Some(s) => {
                if !(s.accepted && s.userFeedback) {
                    return Err("Session not accepted or user feedback not received".to_owned());
                }
                match s.fileIdtoTokenAndUploadFile.get(&query.fileId) {
                    None => Err("Invalid fileId".to_owned()),
                    Some(t) => {
                        if t.token != query.token {
                            Err("Invalid token".to_owned())
                        } else {
                            Ok(t.uploadFile.fileName.clone())
                        }
                    },
                }
            },
        }
    }

    /// Where an admitted upload is written: the saving directory without
    /// trailing slashes, a slash, and the file's name.
    pub fn upload_destination(&self, query: &UploadQuery, saving_dir_setting: Option<String>) -> (r: Result<String, String>)
        ensures
            match r {
                Ok(path) => upload_decision(
                    self.sessions@,
                    query.sessionId@,
                    query.fileId@,
                    query.token@,
                ) matches Ok(name) && path@ == spec_saving_dir(opt_chars(saving_dir_setting)) + "/"@ + name,
                Err(e) => upload_decision(
                    self.sessions@,
                    query.sessionId@,
                    query.fileId@,
                    query.token@,
                ) == Err::<Seq<char>, Seq<char>>(e@),
            },
    {
        let dir = saving_dir(saving_dir_setting);
        match self.check_upload(query) {
            Ok(name) => Ok(concat3(dir.as_str(), "/", name.as_str())),
            Err(e) => Err(e),
        }
    }
}

pub open spec fn opt_chars(o: Option<String>) -> Option<Seq<char>> {
    match o {
        Some(s) => Some(s@),
        None => None,
    }
}

/// The directory received files are saved in: the `savingDir` setting, or
/// `/tmp` without it, with trailing slashes removed.
pub open spec fn spec_saving_dir(setting: Option<Seq<char>>) -> Seq<char> {
    match setting {
        Some(d) => trim_end_char(d, '/'),
        None => trim_end_char("/tmp"@, '/'),
    }
}

pub fn saving_dir(setting: Option<String>) -> (r: String)
    ensures
        r@ == spec_saving_dir(opt_chars(setting)),
{
    match setting {
        Some(d) => trim_end_matches_char(d.as_str(), '/'),
        None => trim_end_matches_char("/tmp", '/'),
    }
}

/// The user's answer to an incoming transfer; an unknown session id is ignored.
#[allow(non_snake_case)]
pub fn handle_incoming_request(sessions: &mut Sessions, sessionId: String, accept: bool) -> (r: Result<String, String>)
    ensures
        r matches Ok(m) && m@ == "ok"@,
        !old(sessions).sessions@.dom().contains(sessionId@) ==> final(sessions).sessions@
            == old(sessions).sessions@,
        old(sessions).sessions@.dom().contains(sessionId@) ==> {
            &&& final(sessions).sessions@.dom().contains(sessionId@)
            &&& answered(old(sessions).sessions@[sessionId@], accept, final(sessions).sessions@[sessionId@])
            &&& final(sessions).sessions@.remove(sessionId@) == old(sessions).sessions@.remove(sessionId@)
        },
{
    sessions.respond(&sessionId, accept);
    Ok("ok".to_owned())
}

} // verus!

verus! {

/// An accepted session admits the upload of each of its files with the token
/// that was issued for it, and names that file.
pub proof fn law_issued_token_admits_upload(
    sessions: Map<Seq<char>, Session>,
    session_id: Seq<char>,
    files: Seq<(Seq<char>, UploadFile)>,
    tokens: Seq<String>,
    i: int,
)
    requires
        sessions.dom().contains(session_id),
        sessions[session_id].accepted,
        sessions[session_id].userFeedback,
        issued(files, tokens, sessions[session_id].fileIdtoTokenAndUploadFile@),
        0 <= i < files.len(),
    ensures
        upload_decision(sessions, session_id, files[i].0, tokens[i]@) == Ok::<Seq<char>, Seq<char>>(
            files[i].1.fileName@,
        ),
{
    assert(sessions[session_id].fileIdtoTokenAndUploadFile@.dom().contains(files[i].0));
}

/// After a prepare-upload request was accepted, each token of the reply
/// admits the upload of its file, under the name the request offered.
pub proof fn law_reply_tokens_admit_uploads(
    sessions: Map<Seq<char>, Session>,
    session_id: Seq<char>,
    files: Map<Seq<char>, UploadFile>,
    reply: Map<Seq<char>, String>,
    file_id: Seq<char>,
)
    requires
        sessions.dom().contains(session_id),
        is_accepted_with(sessions[session_id], sessions[session_id].fileIdtoTokenAndUploadFile@),
        sessions[session_id].fileIdtoTokenAndUploadFile@.dom() == files.dom(),
        forall|k: Seq<char>|
            #[trigger] files.dom().contains(k)
                ==> sessions[session_id].fileIdtoTokenAndUploadFile@[k].uploadFile == files[k],
        tokens_reply(sessions[session_id].fileIdtoTokenAndUploadFile@, reply),
        reply.dom().contains(file_id),
    ensures
        upload_decision(sessions, session_id, file_id, reply[file_id]@) == Ok::<Seq<char>, Seq<char>>(
            files[file_id].fileName@,
        ),
{
    assert(files.dom().contains(file_id));
}

/// An upload with any other token than the issued one is refused.
pub proof fn law_wrong_token_refused(
    sessions: Map<Seq<char>, Session>,
    session_id: Seq<char>,
    file_id: Seq<char>,
    token: Seq<char>,
)
    requires
        sessions.dom().contains(session_id),
        sessions[session_id].accepted,
        sessions[session_id].userFeedback,
        sessions[session_id].fileIdtoTokenAndUploadFile@.dom().contains(file_id),
        sessions[session_id].fileIdtoTokenAndUploadFile@[file_id].token@ != token,
    ensures
        upload_decision(sessions, session_id, file_id, token) == Err::<Seq<char>, Seq<char>>(
            "Invalid token"@,
        ),
{
}

/// Nothing is uploaded into a session before the user has answered.
pub proof fn law_no_upload_before_answer(
    sessions: Map<Seq<char>, Session>,
    session_id: Seq<char>,
    file_id: Seq<char>,
    token: Seq<char>,
)
    requires
        sessions.dom().contains(session_id),
        is_pending(sessions[session_id]),
    ensures
        upload_decision(sessions, session_id, file_id, token) == Err::<Seq<char>, Seq<char>>(
            "Session not accepted or user feedback not received"@,
        ),
{
}

/// A session the user rejected admits no upload, whether it is still held
/// (after the answer) or dropped (after the prepare-upload request saw it).
pub proof fn law_rejected_session_refuses_uploads(
    sessions: Map<Seq<char>, Session>,
    session_id: Seq<char>,
    before: Session,
    file_id: Seq<char>,
    token: Seq<char>,
)
    requires
        sessions.dom().contains(session_id),
        answered(before, false, sessions[session_id]),
    ensures
        upload_decision(sessions, session_id, file_id, token) is Err,
        upload_decision(sessions.remove(session_id), session_id, file_id, token)
            == Err::<Seq<char>, Seq<char>>("Session not found"@),
{
}

} // verus!
