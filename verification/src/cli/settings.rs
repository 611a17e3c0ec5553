//! Which server the command line speaks to, with which token, and how it prints.
use crate::path;
use crate::text;
use vstd::prelude::*;

verus! {

/// How answers are printed.
#[derive(Clone, Copy, Debug, PartialEq, Eq, Structural)]
pub enum OutputMode {
    Human,
    Json,
}

/// What a settings file holds.
#[derive(Debug, PartialEq, Eq)]
pub struct ClientToml {
    pub server: String,
    pub token_file: String,
    pub output: Option<OutputMode>,
}

/// What came of reading the settings file.
#[derive(Debug, PartialEq, Eq)]
pub enum SettingsFile {
    /// There is no place for one.
    Nowhere,
    /// The file was read, and is valid or is not.
    Read(Result<ClientToml, String>),
    /// The file at this place could not be read: it is missing, or the error told came back.
    Unread { path: String, missing: bool, error: String },
}

/// Which server the command line speaks to, with which token, and how it prints.
#[derive(Debug, PartialEq, Eq)]
pub struct ClientSettings {
    pub server: String,
    pub token_file: String,
    pub output: OutputMode,
}

/// What settings hold.
pub struct ClientSettingsView {
    pub server: Seq<char>,
    pub token_file: Seq<char>,
    pub output: OutputMode,
}

/// The first of two that is present.
pub open spec fn first_of<T>(first: Option<T>, second: Option<T>) -> Option<T> {
    if first is Some {
        first
    } else {
        second
    }
}

/// The settings in a file, or why there are none to be had: a file that was asked for must be
/// readable, one that was not may be missing.
pub open spec fn file_settings(file: SettingsFile, explicit: bool) -> Result<Option<ClientToml>, Seq<char>> {
    match file {
        SettingsFile::Nowhere => Ok(None),
        SettingsFile::Read(Ok(settings)) => Ok(Some(settings)),
        SettingsFile::Read(Err(error)) => Err(error@),
        SettingsFile::Unread { path, missing, error } => if missing && !explicit {
            Ok(None)
        } else {
            Err("read "@ + path@ + ": "@ + error@)
        },
    }
}

/// What the command line works with: its flags, then what the file says, then the local server and
/// print for people. A token file is needed.
pub open spec fn resolved(
    file: SettingsFile,
    explicit: bool,
    server: Option<Seq<char>>,
    token_file: Option<Seq<char>>,
    output: Option<OutputMode>,
) -> Result<ClientSettingsView, Seq<char>> {
    match file_settings(file, explicit) {
        Err(error) => Err(error),
        Ok(settings) => {
            let filed_server = match settings {
                Some(settings) => Some(settings.server@),
                None => None,
            };
            let filed_token = match settings {
                Some(settings) => Some(settings.token_file@),
                None => None,
            };
            let filed_output = match settings {
                Some(settings) => settings.output,
                None => None,
            };
            match first_of(token_file, filed_token) {
                None => Err("token_file is required in client TOML or --token-file"@),
                Some(token) => Ok(
                    ClientSettingsView {
                        server: match first_of(server, filed_server) {
                            Some(server) => server,
                            None => "http://127.0.0.1:8080"@,
                        },
                        token_file: token,
                        output: match first_of(output, filed_output) {
                            Some(output) => output,
                            None => OutputMode::Human,
                        },
                    },
                ),
            }
        },
    }
}

impl ClientSettings {
    /// What the settings hold.
    pub open spec fn view(&self) -> ClientSettingsView {
        ClientSettingsView { server: self.server@, token_file: self.token_file@, output: self.output }
    }

    /// Works out what the command line works with.
    pub fn resolve(
        file: SettingsFile,
        explicit: bool,
        server: Option<String>,
        token_file: Option<String>,
        output: Option<OutputMode>,
    ) -> (r: Result<ClientSettings, String>)
        ensures
            match r {
                Ok(settings) => resolved(
                    file,
                    explicit,
                    text::opt_view(server),
                    text::opt_view(token_file),
                    output,
                ) == Ok::<ClientSettingsView, Seq<char>>(settings@),
                Err(error) => resolved(
                    file,
                    explicit,
                    text::opt_view(server),
                    text::opt_view(token_file),
                    output,
                ) == Err::<ClientSettingsView, Seq<char>>(error@),
            },
    {
        let filed: Option<ClientToml> = match file {
            SettingsFile::Nowhere => None,
            SettingsFile::Read(Ok(settings)) => Some(settings),
            SettingsFile::Read(Err(error)) => {
                return Err(error);
            },
            SettingsFile::Unread { path, missing, error } => {
                if !(missing && !explicit) {
                    return Err(text::join4("read ", path.as_str(), ": ", error.as_str()));
                }
                None
            },
        };
        let (filed_server, filed_token, filed_output): (Option<String>, Option<String>, Option<OutputMode>) =
            match filed {
            Some(settings) => (Some(settings.server), Some(settings.token_file), settings.output),
            None => (None, None, None),
        };
        let server: String = match server {
            Some(server) => server,
            None => match filed_server {
                Some(server) => server,
                None => "http://127.0.0.1:8080".to_owned(),
            },
        };
        let token_file: String = match token_file {
            Some(token) => token,
            None => match filed_token {
                Some(token) => token,
                None => {
                    return Err("token_file is required in client TOML or --token-file".to_owned());
                },
            },
        };
        let output: OutputMode = match output {
            Some(output) => output,
            None => match filed_output {
                Some(output) => output,
                None => OutputMode::Human,
            },
        };
        Ok(ClientSettings { server, token_file, output })
    }

    /// Where the server's interface begins.
    pub fn base(&self) -> (r: String)
        ensures
            r@ == path::trim_slashes(self.server@) + "/api/v1alpha1"@,
    {
        let trimmed: String = path::without_end_slashes(self.server.as_str());
        text::join2(trimmed.as_str(), "/api/v1alpha1")
    }
}

/// A flag overrides what the file says.
pub proof fn law_flags_override_the_file(
    file: SettingsFile,
    explicit: bool,
    server: Seq<char>,
    token_file: Seq<char>,
    output: OutputMode,
)
    requires
        file_settings(file, explicit) is Ok,
    ensures
        resolved(file, explicit, Some(server), Some(token_file), Some(output)) == Ok::<
            ClientSettingsView,
            Seq<char>,
        >(ClientSettingsView { server, token_file, output }),
{
}

/// What is given on the command line counts before what the file says, and that before what is taken for granted;
/// a token file has to be named in one of them.
pub proof fn law_settings_come_from_the_nearest_place(
    file: ClientToml,
    explicit: bool,
    server: Option<Seq<char>>,
    token_file: Option<Seq<char>>,
    output: Option<OutputMode>,
)
    ensures
        ({
            let read = resolved(SettingsFile::Read(Ok(file)), explicit, server, token_file, output);
            &&& read is Ok
            &&& read->Ok_0.server == (if server is Some { server->0 } else { file.server@ })
            &&& read->Ok_0.token_file == (if token_file is Some { token_file->0 } else { file.token_file@ })
            &&& read->Ok_0.output == (if output is Some {
                output->0
            } else if file.output is Some {
                file.output->0
            } else {
                OutputMode::Human
            })
        }),
        ({
            let bare = resolved(SettingsFile::Nowhere, explicit, server, token_file, output);
            &&& bare is Ok <==> token_file is Some
            &&& bare is Ok ==> bare->Ok_0.token_file == token_file->0
            &&& bare is Ok && server is Some ==> bare->Ok_0.server == server->0
            &&& bare is Ok ==> bare->Ok_0.output == (if output is Some { output->0 } else { OutputMode::Human })
        }),
{
}

/// A file that is not there is passed over unless it was named; any other file that cannot be read, or that says
/// something else, is a fault.
pub proof fn law_named_files_must_be_there(
    file: String,
    missing: bool,
    error: String,
    explicit: bool,
    server: Option<Seq<char>>,
    token: Seq<char>,
    output: Option<OutputMode>,
)
    ensures
        resolved(SettingsFile::Unread { path: file, missing, error }, explicit, server, Some(token), output) is Ok <==> missing
            && !explicit,
        missing && !explicit ==> resolved(
            SettingsFile::Unread { path: file, missing, error },
            explicit,
            server,
            Some(token),
            output,
        ) == resolved(SettingsFile::Nowhere, explicit, server, Some(token), output),
        resolved(SettingsFile::Read(Err(error)), explicit, server, Some(token), output) == Err::<ClientSettingsView, Seq<char>>(
            error@,
        ),
{
}

} // verus!
