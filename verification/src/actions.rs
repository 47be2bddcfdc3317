//! The actions a finder applies to each matched path: printing, deleting
//! files, removing directories. The decision data lives here, verified; the
//! filesystem and recycle-bin work is performed by the embedding program.

use vstd::prelude::*;

use crate::strutil::{contains_char, push_char};

verus! {

/// Prints each path handed to it.
pub struct ActionPrint {}

impl ActionPrint {
    pub fn new() -> (r: ActionPrint)
        ensures
            r == (ActionPrint {  }),
    {
        ActionPrint {  }
    }

    /// The action's display name.
    pub fn name(&self) -> (r: &'static str)
        ensures
            r@ == "Print"@,
    {
        "Print"
    }
}

/// Deletes matched files, either permanently or through the recycle bin.
pub struct ActionDelete {
    norecycle: bool,
}

impl ActionDelete {
    /// Whether deletion bypasses the recycle bin.
    pub closed spec fn spec_norecycle(&self) -> bool {
        self.norecycle
    }

    pub fn new(norecycle: bool) -> (r: ActionDelete)
        ensures
            r.spec_norecycle() == norecycle,
    {
        ActionDelete { norecycle }
    }

    /// Whether deletion bypasses the recycle bin.
    pub fn norecycle(&self) -> (b: bool)
        ensures
            b == self.spec_norecycle(),
    {
        self.norecycle
    }

    /// The action's display name.
    pub fn name(&self) -> (r: &'static str)
        ensures
            self.spec_norecycle() ==> r@ == "Delete files (permanent)"@,
            !self.spec_norecycle() ==> r@
                == "Delete files (use recycle bin for local files, permanently for remote files)"@,
    {
        if self.norecycle {
            "Delete files (permanent)"
        } else {
            "Delete files (use recycle bin for local files, permanently for remote files)"
        }
    }
}

/// Removes matched directories, either permanently or through the recycle
/// bin.
pub struct ActionRmdir {
    norecycle: bool,
}

impl ActionRmdir {
    /// Whether removal bypasses the recycle bin.
    pub closed spec fn spec_norecycle(&self) -> bool {
        self.norecycle
    }

    pub fn new(norecycle: bool) -> (r: ActionRmdir)
        ensures
            r.spec_norecycle() == norecycle,
    {
        ActionRmdir { norecycle }
    }

    /// Whether removal bypasses the recycle bin.
    pub fn norecycle(&self) -> (b: bool)
        ensures
            b == self.spec_norecycle(),
    {
        self.norecycle
    }

    /// The action's display name.
    pub fn name(&self) -> (r: &'static str)
        ensures
            self.spec_norecycle() ==> r@ == "Delete directories (permanent)"@,
            !self.spec_norecycle() ==> r@
                == "Delete directories (use recycle bin for local files, permanently for remote files)"@,
    {
        if self.norecycle {
            "Delete directories (permanent)"
        } else {
            "Delete directories (use recycle bin for local files, permanently for remote files)"
        }
    }
}

/// Wraps a path in double quotes when it contains a space, so that it can be
/// pasted into a shell; leaves it unchanged otherwise.
pub fn quoted_path(path: &str) -> (r: String)
    ensures
        path@.contains(' ') ==> r@ == seq!['"'] + path@ + seq!['"'],
        !path@.contains(' ') ==> r@ == path@,
{
    if contains_char(path, ' ') {
        let mut s = String::new();
        push_char(&mut s, '"');
        s.append(path);
        push_char(&mut s, '"');
        proof {
            assert(s@ =~= seq!['"'] + path@ + seq!['"']);
        }
        s
    } else {
        path.to_owned()
    }
}

} // verus!
