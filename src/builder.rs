//! A builder that collects what a framework needs before it starts.
use vstd::prelude::*;
use crate::command::Command;
use crate::dispatch::FrameworkOptions;

verus! {

/// Collects the settings of a framework. `S` is the user data setup
/// callback, `C` the client settings callback and `M` the callback that
/// adjusts a command's metadata at registration.
pub struct FrameworkBuilder<S, C, M> {
    pub user_data_setup: Option<S>,
    pub options: Option<FrameworkOptions>,
    pub client_settings: Option<C>,
    pub token: Option<String>,
    pub intents: Option<u64>,
    /// Commands to register, each with its metadata callback; `None` leaves
    /// the metadata at its defaults.
    pub commands: Vec<(Command, Option<M>)>,
}

impl<S, C, M> Default for FrameworkBuilder<S, C, M> {
    fn default() -> (r: Self)
        ensures
            r.user_data_setup is None,
            r.options is None,
            r.client_settings is None,
            r.token is None,
            r.intents is None,
            r.commands@.len() == 0,
    {
        FrameworkBuilder {
            user_data_setup: None,
            options: None,
            client_settings: None,
            token: None,
            intents: None,
            commands: Vec::new(),
        }
    }
}

impl<S, C, M> FrameworkBuilder<S, C, M> {
    /// Sets the callback that creates the user data.
    pub fn user_data_setup(self, user_data_setup: S) -> (r: Self)
        ensures
            r == (FrameworkBuilder { user_data_setup: Some(user_data_setup), ..self }),
    {
        FrameworkBuilder { user_data_setup: Some(user_data_setup), ..self }
    }

    /// Sets the framework options.
    pub fn options(self, options: FrameworkOptions) -> (r: Self)
        ensures
            r == (FrameworkBuilder { options: Some(options), ..self }),
    {
        FrameworkBuilder { options: Some(options), ..self }
    }

    /// Sets the callback that adjusts the client's settings.
    pub fn client_settings(self, f: C) -> (r: Self)
        ensures
            r == (FrameworkBuilder { client_settings: Some(f), ..self }),
    {
        FrameworkBuilder { client_settings: Some(f), ..self }
    }

    /// Sets the bot token.
    pub fn token(self, token: String) -> (r: Self)
        ensures
            r == (FrameworkBuilder { token: Some(token), ..self }),
    {
        FrameworkBuilder { token: Some(token), ..self }
    }

    /// Adds one command with the callback that adjusts its metadata.
    pub fn command(self, definition: Command, meta_builder: M) -> (r: Self)
        ensures
            r.commands@ == self.commands@.push((definition, Some(meta_builder))),
            r.user_data_setup == self.user_data_setup,
            r.options == self.options,
            r.client_settings == self.client_settings,
            r.token == self.token,
            r.intents == self.intents,
    {
        let mut b = self;
        b.commands.push((definition, Some(meta_builder)));
        b
    }

    /// Adds several commands, in order, with their metadata left at the defaults.
    pub fn commands(self, commands: Vec<Command>) -> (r: Self)
        ensures
            r.commands@ == self.commands@ + commands@.map_values(|c: Command| (c, None::<M>)),
            r.user_data_setup == self.user_data_setup,
            r.options == self.options,
            r.client_settings == self.client_settings,
            r.token == self.token,
            r.intents == self.intents,
    {
        let ghost start = self.commands@;
        let ghost given = commands@;
        let mut b = self;
        let n = commands.len();
        let mut rest = commands;
        let mut taken: usize = 0;
        while rest.len() > 0
            invariant
                taken <= given.len(),
                n == given.len(),
                rest@ == given.subrange(taken as int, given.len() as int),
                b.commands@ == start + given.subrange(0, taken as int).map_values(|c: Command| (c, None::<M>)),
                b.user_data_setup == self.user_data_setup,
                b.options == self.options,
                b.client_settings == self.client_settings,
                b.token == self.token,
                b.intents == self.intents,
            decreases rest@.len(),
        {
            let c = rest.remove(0);
            b.commands.push((c, None));
            taken = taken + 1;
            proof {
                assert(rest@ =~= given.subrange(taken as int, given.len() as int));
                assert(b.commands@ =~= start + given.subrange(0, taken as int).map_values(|c: Command| (c, None::<M>)));
            }
        }
        proof { assert(given.subrange(0, taken as int) =~= given); }
        b
    }
}

} // verus!
