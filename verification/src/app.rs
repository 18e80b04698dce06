//! The state of the race between two frames, and what each event makes of it.
//!
//! The caller owns the terminal, the network and the clock. It hands in what
//! happened (a key, a tick, the outcome of a fetch) and shows the state that
//! comes back.

use crate::author_counts::pairs;
use crate::commits::{get_commits_per_week, Commits};
use crate::contributors::{ids, records, Contributor, Record};
use crate::date::{convert_timestamp_to_month_and_year, month_and_year};
use crate::error::MalformedInputError;
use crate::sampler::{sample, sampled};
use crate::timeline::{aggregate, well_formed, Timeline};
use tui_input::Input;
use vstd::prelude::*;
use vstd::string::StringExecFns;

verus! {

/// The line editor of `tui_input`. Nothing of it is seen but its text.
#[verifier::external_type_specification]
#[verifier::external_body]
pub struct ExInput(Input);

/// The text that a line editor holds.
pub uninterp spec fn input_text(input: Input) -> Seq<char>;

/// `tui_input::Input` derives `Default`: the default editor holds the default
/// `String`, which is empty.
pub assume_specification[ <Input as core::default::Default>::default ]() -> (input: Input)
    ensures
        input_text(input) == Seq::<char>::empty(),
;

/// `Input::value` hands out the text that the editor holds.
pub assume_specification<'a>[ Input::value ](input: &'a Input) -> (text: &'a str)
    ensures
        text@ == input_text(*input),
;

/// `Input::reset` sets the editor's text to the default `String`, which is
/// empty.
pub assume_specification[ Input::reset ](input: &mut Input)
    ensures
        input_text(*final(input)) == Seq::<char>::empty(),
;

/// Who has the keyboard: the race, or the line editor.
#[derive(Clone, Copy, Debug, PartialEq, Eq)]
pub enum InputMode {
    Normal,
    Editing,
}

/// What a key is, as far as the race tells keys apart.
#[derive(Clone, Copy, Debug, PartialEq, Eq)]
pub enum KeyCode {
    Enter,
    Char(char),
    Other,
}

/// A key that was pressed, with the modifier keys held down as bits.
#[derive(Clone, Copy, Debug, PartialEq, Eq)]
pub struct KeyPress {
    pub code: KeyCode,
    pub modifiers: u8,
}

/// The bit of the control key among the modifiers.
pub const CONTROL: u8 = 2;

/// The state of the race.
pub struct App {
    pub author_blacklist: Vec<String>,
    pub commits: Option<Commits>,
    pub current_tick: u32,
    pub current_tick_authors: Option<Vec<(String, u32)>>,
    pub current_week: Option<u32>,
    pub error: Option<String>,
    pub input: Input,
    pub input_mode: InputMode,
    pub repository_url: String,
    pub should_load_repository: bool,
    pub should_quit: bool,
}

/// The state of the race as plain values.
#[verifier::ext_equal]
pub struct AppView {
    pub author_blacklist: Seq<Seq<char>>,
    pub commits: Option<Timeline>,
    pub current_tick: u32,
    pub current_tick_authors: Option<Seq<(Seq<char>, nat)>>,
    pub current_week: Option<u32>,
    pub error: Option<Seq<char>>,
    pub input: Seq<char>,
    pub input_mode: InputMode,
    pub repository_url: Seq<char>,
    pub should_load_repository: bool,
    pub should_quit: bool,
}

/// What a fetch or a read brought: the feed, or why there is none.
pub open spec fn outcome_view(outcome: Result<Vec<Contributor>, String>) -> Result<
    Seq<Record>,
    Seq<char>,
> {
    match outcome {
        Ok(contributors) => Ok(records(contributors@)),
        Err(message) => Err(message@),
    }
}

/// What was handed in with a tick, as plain values.
pub open spec fn fetched_view(fetched: Option<Result<Vec<Contributor>, String>>) -> Option<
    Result<Seq<Record>, Seq<char>>,
> {
    match fetched {
        Some(outcome) => Some(outcome_view(outcome)),
        None => None,
    }
}

/// Where the contributors of a repository are fetched from.
pub open spec fn contributors_url_of(repository: Seq<char>) -> Seq<char> {
    "https://github.com/"@ + repository + "/graphs/contributors-data"@
}

impl AppView {
    /// The state at the start: the line editor has the keyboard and is empty.
    pub open spec fn initial(author_blacklist: Seq<Seq<char>>) -> AppView {
        AppView {
            author_blacklist,
            commits: None,
            current_tick: 0,
            current_tick_authors: None,
            current_week: None,
            error: None,
            input: Seq::empty(),
            input_mode: InputMode::Editing,
            repository_url: Seq::empty(),
            should_load_repository: false,
            should_quit: false,
        }
    }

    /// After a key that the race got: `q` asks to quit.
    pub open spec fn keyed(self, c: char) -> AppView {
        if c == 'q' {
            AppView { should_quit: true, ..self }
        } else {
            self
        }
    }

    /// Whether a key pressed in the line editor asks to quit: `c` with the
    /// control key and no other modifier.
    pub open spec fn interrupts(key: KeyPress) -> bool {
        key.modifiers == CONTROL && (key.code == KeyCode::Char('c') || key.code == KeyCode::Char(
            'C',
        ))
    }

    /// Whether a pressed key is left to the line editor: the editor has the
    /// keyboard, and the key neither enters the text nor asks to quit.
    pub open spec fn edits(self, key: KeyPress) -> bool {
        self.input_mode == InputMode::Editing && key.code != KeyCode::Enter && !Self::interrupts(
            key,
        )
    }

    /// After a pressed key. While the race has the keyboard, a character is
    /// a key of the race. While the line editor has it, the enter key enters
    /// the text, an interrupt asks to quit, and every other key is the
    /// editor's own.
    pub open spec fn pressed(self, key: KeyPress) -> AppView {
        match self.input_mode {
            InputMode::Normal => match key.code {
                KeyCode::Char(c) => self.keyed(c),
                _ => self,
            },
            InputMode::Editing => if key.code == KeyCode::Enter {
                self.submitted()
            } else if Self::interrupts(key) {
                AppView { should_quit: true, ..self }
            } else {
                self
            },
        }
    }

    /// After the line editor's text was entered: it names the repository, the
    /// editor is empty, the race has the keyboard and a load is pending.
    pub open spec fn submitted(self) -> AppView {
        AppView {
            repository_url: self.input,
            input: Seq::empty(),
            input_mode: InputMode::Normal,
            should_load_repository: true,
            ..self
        }
    }

    /// After a feed came: a well formed feed replaces the timeline and starts
    /// the race anew; any other leaves the timeline, gives the keyboard to the
    /// line editor and says why.
    pub open spec fn with_feed(self, feed: Seq<Record>) -> AppView {
        let excluded = self.author_blacklist.to_set();
        if well_formed(feed, excluded) {
            AppView {
                commits: Some(aggregate(feed, excluded)),
                current_tick: 0,
                error: None,
                ..self
            }
        } else {
            AppView {
                error: Some(MalformedInputError.text()),
                input_mode: InputMode::Editing,
                ..self
            }
        }
    }

    /// After a fetch: the feed is taken in, or the line editor gets the
    /// keyboard and the state says why there is no feed.
    pub open spec fn fetched(self, outcome: Result<Seq<Record>, Seq<char>>) -> AppView {
        match outcome {
            Ok(feed) => self.with_feed(feed),
            Err(message) => AppView {
                input_mode: InputMode::Editing,
                error: Some(message),
                ..self
            },
        }
    }

    /// After a file was read: a well formed feed is taken in and the race gets
    /// the keyboard; a file that could not be read only leaves its message.
    pub open spec fn file_read(self, outcome: Result<Seq<Record>, Seq<char>>) -> AppView {
        match outcome {
            Ok(feed) => if well_formed(feed, self.author_blacklist.to_set()) {
                AppView { input_mode: InputMode::Normal, ..self.with_feed(feed) }
            } else {
                self.with_feed(feed)
            },
            Err(message) => AppView { error: Some(message), ..self },
        }
    }

    /// Whether a tick samples a frame: nothing is being loaded, there is a
    /// timeline, and the race is not over.
    pub open spec fn sampling(self, total_ticks: u32) -> bool {
        !self.should_load_repository && self.commits is Some && self.current_tick <= total_ticks
    }

    /// The tick after this one; the counter stays where it cannot count on.
    pub open spec fn next_tick(self) -> u32 {
        if self.current_tick < u32::MAX {
            (self.current_tick + 1) as u32
        } else {
            self.current_tick
        }
    }

    /// After the frame of a tick: where a frame is sampled, it is shown and
    /// the tick counts on; where sampling is refused, the state says why.
    pub open spec fn advanced(self, total_ticks: u32) -> AppView {
        if self.sampling(total_ticks) {
            match sampled(self.commits->0, self.current_tick as nat, total_ticks as nat) {
                Ok(found) => AppView {
                    current_week: Some(found.0),
                    current_tick_authors: Some(found.1),
                    current_tick: self.next_tick(),
                    ..self
                },
                Err(error) => AppView { error: Some(error.text()), ..self },
            }
        } else {
            self
        }
    }

    /// After a pending load got the outcome of its fetch, if it got one.
    pub open spec fn loaded(self, fetched: Option<Result<Seq<Record>, Seq<char>>>) -> AppView {
        match fetched {
            Some(outcome) if self.should_load_repository => AppView {
                should_load_repository: false,
                ..self.fetched(outcome)
            },
            _ => self,
        }
    }

    /// After a tick: a pending load takes what was fetched, then the frame of
    /// the tick is sampled.
    pub open spec fn ticked(
        self,
        total_ticks: u32,
        fetched: Option<Result<Seq<Record>, Seq<char>>>,
    ) -> AppView {
        self.loaded(fetched).advanced(total_ticks)
    }
}

/// The leaderboard of a frame as plain values.
pub open spec fn authors_view(authors: Option<Vec<(String, u32)>>) -> Option<
    Seq<(Seq<char>, nat)>,
> {
    match authors {
        Some(list) => Some(pairs(list@)),
        None => None,
    }
}

/// A stored timeline as a plain value.
pub open spec fn commits_view(commits: Option<Commits>) -> Option<Timeline> {
    match commits {
        Some(stored) => Some(stored@),
        None => None,
    }
}

/// A message as plain text.
pub open spec fn text_view(text: Option<String>) -> Option<Seq<char>> {
    match text {
        Some(message) => Some(message@),
        None => None,
    }
}

impl View for App {
    type V = AppView;

    open spec fn view(&self) -> AppView {
        AppView {
            author_blacklist: ids(self.author_blacklist@),
            commits: commits_view(self.commits),
            current_tick: self.current_tick,
            current_tick_authors: authors_view(self.current_tick_authors),
            current_week: self.current_week,
            error: text_view(self.error),
            input: input_text(self.input),
            input_mode: self.input_mode,
            repository_url: self.repository_url@,
            should_load_repository: self.should_load_repository,
            should_quit: self.should_quit,
        }
    }
}

/// The number of ticks of a race that lasts `duration` milliseconds at one
/// tick every `tick_rate` milliseconds, cut to the 32 bits of a tick count.
pub fn total_ticks(duration: u128, tick_rate: u128) -> (ticks: u32)
    requires
        tick_rate > 0,
    ensures
        ticks == (duration / tick_rate) as u32,
{
    #[verifier::truncate]
    ((duration / tick_rate) as u32)
}

impl App {
    /// The state at the start of a race that passes over `author_blacklist`.
    pub fn new(author_blacklist: Vec<String>) -> (app: App)
        ensures
            app@ == AppView::initial(ids(author_blacklist@)),
    {
        App {
            author_blacklist,
            commits: None,
            current_tick: 0,
            current_tick_authors: None,
            current_week: None,
            error: None,
            input: Input::default(),
            input_mode: InputMode::Editing,
            repository_url: String::new(),
            should_load_repository: false,
            should_quit: false,
        }
    }

    /// Takes a key that the race got.
    pub fn on_key(&mut self, c: char)
        ensures
            final(self)@ == old(self)@.keyed(c),
    {
        if c == 'q' {
            self.should_quit = true;
        }
    }

    /// Takes a pressed key. The answer says whether the key is left to the
    /// line editor, which the caller then hands it to.
    pub fn handle_key(&mut self, key: KeyPress) -> (for_editor: bool)
        ensures
            final(self)@ == old(self)@.pressed(key),
            for_editor == old(self)@.edits(key),
    {
        match self.input_mode {
            InputMode::Normal => {
                match key.code {
                    KeyCode::Char(c) => {
                        self.on_key(c);
                    },
                    _ => {},
                }
                false
            },
            InputMode::Editing => {
                match key.code {
                    KeyCode::Enter => {
                        self.submit_repository();
                        false
                    },
                    KeyCode::Char(c) => {
                        if (c == 'c' || c == 'C') && key.modifiers == CONTROL {
                            self.should_quit = true;
                            false
                        } else {
                            true
                        }
                    },
                    KeyCode::Other => true,
                }
            },
        }
    }

    /// Enters the text of the line editor as the repository to load.
    pub fn submit_repository(&mut self)
        ensures
            final(self)@ == old(self)@.submitted(),
    {
        self.repository_url = self.input.value().to_owned();
        self.input.reset();
        self.input_mode = InputMode::Normal;
        self.should_load_repository = true;
    }

    /// Where to fetch the contributors of the repository from.
    pub fn contributors_url(&self) -> (url: String)
        ensures
            url@ == contributors_url_of(self@.repository_url),
    {
        let mut url = "https://github.com/".to_owned();
        url.append(self.repository_url.as_str());
        url.append("/graphs/contributors-data");
        url
    }

    /// Takes a feed in: aggregates it and starts the race anew, or refuses it.
    fn take_feed(&mut self, contributors: Vec<Contributor>)
        ensures
            final(self)@ == old(self)@.with_feed(records(contributors@)),
    {
        let ghost feed = records(contributors@);
        let excluded = self.author_blacklist.clone();
        assert(ids(excluded@) =~= ids(self.author_blacklist@));
        match get_commits_per_week(contributors, excluded) {
            Ok(commits) => {
                self.commits = Some(commits);
                self.current_tick = 0;
                self.error = None;
            },
            Err(refused) => {
                self.error = Some(refused.message());
                self.input_mode = InputMode::Editing;
            },
        }
    }

    /// Takes the outcome of fetching the repository's contributors.
    pub fn load_repository_insights(&mut self, fetched: Result<Vec<Contributor>, String>)
        ensures
            final(self)@ == old(self)@.fetched(outcome_view(fetched)),
    {
        match fetched {
            Ok(contributors) => {
                self.take_feed(contributors);
            },
            Err(message) => {
                self.input_mode = InputMode::Editing;
                self.error = Some(message);
            },
        }
    }

    /// Takes the outcome of reading the contributors from a file.
    pub fn load_repository_insights_from_json(&mut self, read: Result<Vec<Contributor>, String>)
        ensures
            final(self)@ == old(self)@.file_read(outcome_view(read)),
    {
        match read {
            Ok(contributors) => {
                self.take_feed(contributors);
                if self.error.is_none() {
                    self.input_mode = InputMode::Normal;
                }
            },
            Err(message) => {
                self.error = Some(message);
            },
        }
    }

    /// Takes a tick of the clock. `fetched` is the outcome of fetching the
    /// contributors where a load is pending and the caller has fetched.
    pub fn on_tick(&mut self, total_ticks: u32, fetched: Option<Result<Vec<Contributor>, String>>)
        ensures
            final(self)@ == old(self)@.ticked(total_ticks, fetched_view(fetched)),
    {
        if self.should_load_repository {
            match fetched {
                Some(outcome) => {
                    self.load_repository_insights(outcome);
                    self.should_load_repository = false;
                },
                None => {},
            }
        }
        if !self.should_load_repository && self.current_tick <= total_ticks {
            let sampled = match &self.commits {
                Some(commits) => Some(sample(commits, self.current_tick, total_ticks)),
                None => None,
            };
            match sampled {
                Some(Ok((week, authors))) => {
                    self.current_week = Some(week);
                    self.current_tick_authors = Some(authors);
                    if self.current_tick < u32::MAX {
                        self.current_tick = self.current_tick + 1;
                    }
                },
                Some(Err(error)) => {
                    self.error = Some(error.message());
                },
                None => {},
            }
        }
    }

    /// The month and year of the week that the frame shows, if it shows one.
    pub fn current_week_label(&self) -> (label: Option<String>)
        ensures
            text_view(label) == match self@.current_week {
                Some(week) => Some(month_and_year(week)),
                None => None,
            },
    {
        match self.current_week {
            Some(week) => Some(convert_timestamp_to_month_and_year(&week)),
            None => None,
        }
    }
}

} // verus!
