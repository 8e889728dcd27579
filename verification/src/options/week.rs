//! Settings of the week pages: which parts the tool maintains on them.

use vstd::prelude::*;

verus! {

/// One maintained part of a week page, as named on the command line.
#[derive(Debug, Clone, Copy, PartialEq, Eq, Structural)]
pub enum Flag {
    /// Add embedded week days
    Week,
    /// Add property link to month
    Month,
    /// Add property links to previous and next week
    Nav,
}

/// Which parts of a week page the tool maintains.
#[derive(Debug, Clone, Copy, PartialEq, Eq, Structural)]
pub struct Settings {
    pub week: bool,
    pub link_to_month: bool,
    pub nav_link: bool,
}

impl Default for Settings {
    /// No part is maintained.
    fn default() -> (r: Settings)
        ensures
            !r.week,
            !r.link_to_month,
            !r.nav_link,
    {
        Settings { week: false, link_to_month: false, nav_link: false }
    }
}

impl Settings {
    /// No part is maintained.
    pub fn is_empty(&self) -> (r: bool)
        ensures
            r == (!self.week && !self.link_to_month && !self.nav_link),
    {
        !self.week && !self.link_to_month && !self.nav_link
    }

    /// The flags of the maintained parts, in a fixed order.
    pub fn to_options(&self) -> (r: Vec<Flag>)
        ensures
            r@ == spec_options(*self),
    {
        let mut r: Vec<Flag> = Vec::new();
        if self.week {
            r.push(Flag::Week);
        }
        if self.link_to_month {
            r.push(Flag::Month);
        }
        if self.nav_link {
            r.push(Flag::Nav);
        }
        proof {
            assert(r@ =~= spec_options(*self));
        }
        r
    }

    /// The settings with exactly the parts the flags name.
    pub fn from_flags(flags: &Vec<Flag>) -> (r: Settings)
        ensures
            r.week == flags@.contains(Flag::Week),
            r.link_to_month == flags@.contains(Flag::Month),
            r.nav_link == flags@.contains(Flag::Nav),
    {
        let mut r = Settings { week: false, link_to_month: false, nav_link: false };
        let mut i: usize = 0;
        while i < flags.len()
            invariant
                i <= flags@.len(),
                r.week == flags@.take(i as int).contains(Flag::Week),
                r.link_to_month == flags@.take(i as int).contains(Flag::Month),
                r.nav_link == flags@.take(i as int).contains(Flag::Nav),
            decreases flags@.len() - i,
        {
            match flags[i] {
                Flag::Week => {
                    proof {
                        assert(flags@.take(i as int + 1).drop_last() =~= flags@.take(i as int));
                        assert(flags@.take(i as int + 1).last() == flags@[i as int]);
                    }
                    r.week = true;
                },
                Flag::Month => {
                    proof {
                        assert(flags@.take(i as int + 1).drop_last() =~= flags@.take(i as int));
                        assert(flags@.take(i as int + 1).last() == flags@[i as int]);
                    }
                    r.link_to_month = true;
                },
                Flag::Nav => {
                    proof {
                        assert(flags@.take(i as int + 1).drop_last() =~= flags@.take(i as int));
                        assert(flags@.take(i as int + 1).last() == flags@[i as int]);
                    }
                    r.nav_link = true;
                },
            }
            i = i + 1;
        }
        proof {
            assert(flags@.take(flags@.len() as int) =~= flags@);
        }
        r
    }
}

/// The flags of the maintained parts, in the order `to_options` lists them.
pub open spec fn spec_options(s: Settings) -> Seq<Flag> {
    (if s.week {
        seq![Flag::Week]
    } else {
        Seq::<Flag>::empty()
    }) +
    (if s.link_to_month {
        seq![Flag::Month]
    } else {
        Seq::<Flag>::empty()
    }) +
    (if s.nav_link {
        seq![Flag::Nav]
    } else {
        Seq::<Flag>::empty()
    })
}

/// How a week page is configured: the settings, and whether they are
/// still the built-in default.
#[derive(Debug, Clone, Copy, PartialEq, Eq, Structural)]
pub struct Page {
    pub default: bool,
    pub settings: Settings,
}

impl Default for Page {
    /// The built-in default: every part is maintained.
    fn default() -> (r: Page)
        ensures
            r.default,
            r.settings.week,
            r.settings.link_to_month,
            r.settings.nav_link,
    {
        Page { default: true, settings: Settings { week: true, link_to_month: true, nav_link: true,  } }
    }
}

impl Page {
    /// A page nothing is maintained on.
    pub fn disabled() -> (r: Page)
        ensures
            !r.default,
            r.settings == (Settings { week: false, link_to_month: false, nav_link: false }),
    {
        Page { default: false, settings: Settings { week: false, link_to_month: false, nav_link: false } }
    }

    /// The built-in default value.
    pub open spec fn is_default_spec(self) -> bool {
        self == (Page { default: true, settings: Settings { week: true, link_to_month: true, nav_link: true, } })
    }

    /// The configuration was not overridden on the command line.
    pub fn is_default(&self) -> (r: bool)
        ensures
            r == self.is_default_spec(),
            r == (*self == (Page { default: true, settings: Settings { week: true, link_to_month: true, nav_link: true,  } })),
    {
        self.default && self.settings == (Settings { week: true, link_to_month: true, nav_link: true,  })
    }

    /// The page's settings.
    pub fn settings(&self) -> (r: &Settings)
        ensures
            r == self.settings,
    {
        &self.settings
    }

    /// Take configured settings; the page no longer counts as default.
    pub fn update(&mut self, settings: &Settings)
        ensures
            !final(self).default,
            final(self).settings == *settings,
    {
        self.default = false;
        self.settings = *settings;
    }
}

} // verus!
