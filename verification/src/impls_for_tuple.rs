//! Bundles of several accesses, written as tuples of up to four parts.

use vstd::prelude::*;
use resources::Resources;
use crate::borrows::{BorrowsView, SystemBorrows};
use crate::error::ResourceError;
use crate::query_bundle::{QueryBundle, QuerySingle};
use crate::resource_bundle::{Fetch, ResourceBundle, ResourceSingle};

verus! {

impl<A: ResourceSingle> ResourceBundle for (A,) {
    type Effectors = (A::Effector,);

    /// The parts are declared one after the other, from left to right.
    open spec fn declares(before: BorrowsView, after: BorrowsView) -> bool {
        A::declares(before, after)
    }

    /// The accessor of each part, in the order of the parts.
    open spec fn accessors() -> Self::Effectors {
        (A::accessor(),)
    }

    fn effectors() -> Self::Effectors {
        (A::effector(),)
    }

    fn write_borrows(borrows: &mut SystemBorrows) {
        A::write_borrows(borrows);
    }
}

impl<A: ResourceSingle, B: ResourceSingle> ResourceBundle for (A, B) {
    type Effectors = (A::Effector, B::Effector);

    /// The parts are declared one after the other, from left to right.
    open spec fn declares(before: BorrowsView, after: BorrowsView) -> bool {
        exists|after_a: BorrowsView|
            #![trigger A::declares(before, after_a)]
            A::declares(before, after_a)
                && B::declares(after_a, after)
    }

    /// The accessor of each part, in the order of the parts.
    open spec fn accessors() -> Self::Effectors {
        (A::accessor(), B::accessor())
    }

    fn effectors() -> Self::Effectors {
        (A::effector(), B::effector())
    }

    fn write_borrows(borrows: &mut SystemBorrows) {
        A::write_borrows(borrows);
        let ghost after_a = borrows@;
        B::write_borrows(borrows);
        assert(A::declares(old(borrows)@, after_a)
            && B::declares(after_a, borrows@));
    }
}

impl<A: ResourceSingle, B: ResourceSingle, C: ResourceSingle> ResourceBundle for (A, B, C) {
    type Effectors = (A::Effector, B::Effector, C::Effector);

    /// The parts are declared one after the other, from left to right.
    open spec fn declares(before: BorrowsView, after: BorrowsView) -> bool {
        exists|after_a: BorrowsView, after_b: BorrowsView|
            #![trigger A::declares(before, after_a), B::declares(after_a, after_b)]
            A::declares(before, after_a)
                && B::declares(after_a, after_b)
                && C::declares(after_b, after)
    }

    /// The accessor of each part, in the order of the parts.
    open spec fn accessors() -> Self::Effectors {
        (A::accessor(), B::accessor(), C::accessor())
    }

    fn effectors() -> Self::Effectors {
        (A::effector(), B::effector(), C::effector())
    }

    fn write_borrows(borrows: &mut SystemBorrows) {
        A::write_borrows(borrows);
        let ghost after_a = borrows@;
        B::write_borrows(borrows);
        let ghost after_b = borrows@;
        C::write_borrows(borrows);
        assert(A::declares(old(borrows)@, after_a)
            && B::declares(after_a, after_b)
            && C::declares(after_b, borrows@));
    }
}

impl<
    A: ResourceSingle,
    B: ResourceSingle,
    C: ResourceSingle,
    D: ResourceSingle,
> ResourceBundle for (A, B, C, D) {
    type Effectors = (A::Effector, B::Effector, C::Effector, D::Effector);

    /// The parts are declared one after the other, from left to right.
    open spec fn declares(before: BorrowsView, after: BorrowsView) -> bool {
        exists|after_a: BorrowsView, after_b: BorrowsView, after_c: BorrowsView|
            #![trigger 
                A::declares(before, after_a),
                B::declares(after_a, after_b),
                C::declares(after_b, after_c),
            ]
            A::declares(before, after_a)
                && B::declares(after_a, after_b)
                && C::declares(after_b, after_c)
                && D::declares(after_c, after)
    }

    /// The accessor of each part, in the order of the parts.
    open spec fn accessors() -> Self::Effectors {
        (A::accessor(), B::accessor(), C::accessor(), D::accessor())
    }

    fn effectors() -> Self::Effectors {
        (A::effector(), B::effector(), C::effector(), D::effector())
    }

    fn write_borrows(borrows: &mut SystemBorrows) {
        A::write_borrows(borrows);
        let ghost after_a = borrows@;
        B::write_borrows(borrows);
        let ghost after_b = borrows@;
        C::write_borrows(borrows);
        let ghost after_c = borrows@;
        D::write_borrows(borrows);
        assert(A::declares(old(borrows)@, after_a)
            && B::declares(after_a, after_b)
            && C::declares(after_b, after_c)
            && D::declares(after_c, borrows@));
    }
}

impl<A: QuerySingle> QueryBundle for (A,) {
    type Effectors = (A::Effector,);

    /// The parts are declared one after the other, from left to right.
    open spec fn declares(before: BorrowsView, after: BorrowsView) -> bool {
        A::declares(before, after)
    }

    /// The accessor of each part, in the order of the parts.
    open spec fn accessors() -> Self::Effectors {
        (A::accessor(),)
    }

    fn effectors() -> Self::Effectors {
        (A::effector(),)
    }

    fn write_borrows(borrows: &mut SystemBorrows) {
        A::write_borrows(borrows);
    }
}

impl<A: QuerySingle, B: QuerySingle> QueryBundle for (A, B) {
    type Effectors = (A::Effector, B::Effector);

    /// The parts are declared one after the other, from left to right.
    open spec fn declares(before: BorrowsView, after: BorrowsView) -> bool {
        exists|after_a: BorrowsView|
            #![trigger A::declares(before, after_a)]
            A::declares(before, after_a)
                && B::declares(after_a, after)
    }

    /// The accessor of each part, in the order of the parts.
    open spec fn accessors() -> Self::Effectors {
        (A::accessor(), B::accessor())
    }

    fn effectors() -> Self::Effectors {
        (A::effector(), B::effector())
    }

    fn write_borrows(borrows: &mut SystemBorrows) {
        A::write_borrows(borrows);
        let ghost after_a = borrows@;
        B::write_borrows(borrows);
        assert(A::declares(old(borrows)@, after_a)
            && B::declares(after_a, borrows@));
    }
}

impl<A: QuerySingle, B: QuerySingle, C: QuerySingle> QueryBundle for (A, B, C) {
    type Effectors = (A::Effector, B::Effector, C::Effector);

    /// The parts are declared one after the other, from left to right.
    open spec fn declares(before: BorrowsView, after: BorrowsView) -> bool {
        exists|after_a: BorrowsView, after_b: BorrowsView|
            #![trigger A::declares(before, after_a), B::declares(after_a, after_b)]
            A::declares(before, after_a)
                && B::declares(after_a, after_b)
                && C::declares(after_b, after)
    }

    /// The accessor of each part, in the order of the parts.
    open spec fn accessors() -> Self::Effectors {
        (A::accessor(), B::accessor(), C::accessor())
    }

    fn effectors() -> Self::Effectors {
        (A::effector(), B::effector(), C::effector())
    }

    fn write_borrows(borrows: &mut SystemBorrows) {
        A::write_borrows(borrows);
        let ghost after_a = borrows@;
        B::write_borrows(borrows);
        let ghost after_b = borrows@;
        C::write_borrows(borrows);
        assert(A::declares(old(borrows)@, after_a)
            && B::declares(after_a, after_b)
            && C::declares(after_b, borrows@));
    }
}

impl<A: QuerySingle, B: QuerySingle, C: QuerySingle, D: QuerySingle> QueryBundle for (A, B, C, D) {
    type Effectors = (A::Effector, B::Effector, C::Effector, D::Effector);

    /// The parts are declared one after the other, from left to right.
    open spec fn declares(before: BorrowsView, after: BorrowsView) -> bool {
        exists|after_a: BorrowsView, after_b: BorrowsView, after_c: BorrowsView|
            #![trigger 
                A::declares(before, after_a),
                B::declares(after_a, after_b),
                C::declares(after_b, after_c),
            ]
            A::declares(before, after_a)
                && B::declares(after_a, after_b)
                && C::declares(after_b, after_c)
                && D::declares(after_c, after)
    }

    /// The accessor of each part, in the order of the parts.
    open spec fn accessors() -> Self::Effectors {
        (A::accessor(), B::accessor(), C::accessor(), D::accessor())
    }

    fn effectors() -> Self::Effectors {
        (A::effector(), B::effector(), C::effector(), D::effector())
    }

    fn write_borrows(borrows: &mut SystemBorrows) {
        A::write_borrows(borrows);
        let ghost after_a = borrows@;
        B::write_borrows(borrows);
        let ghost after_b = borrows@;
        C::write_borrows(borrows);
        let ghost after_c = borrows@;
        D::write_borrows(borrows);
        assert(A::declares(old(borrows)@, after_a)
            && B::declares(after_a, after_b)
            && C::declares(after_b, after_c)
            && D::declares(after_c, borrows@));
    }
}

impl<'a, A: Fetch<'a>> Fetch<'a> for (A,) {
    type Refs = (A::Refs,);

    /// A success holds what each part fetched. A failure is that of the first
    /// part to fail, all parts before it having succeeded.
    open spec fn may_fetch(
        &self,
        resources: &'a Resources,
        fetched: Result<Self::Refs, ResourceError>,
    ) -> bool {
        match fetched {
            Ok((part_a,)) => {
                self.0.may_fetch(resources, Ok(part_a))
            },
            Err(error) => {
                ||| self.0.may_fetch(resources, Err(error))
            },
        }
    }

    /// The parts are fetched from left to right. The first failure ends the
    /// fetch, and what was fetched before it is given back to the store.
    fn fetch(&self, resources: &'a Resources) -> (fetched: Result<Self::Refs, ResourceError>) {
        let part_a = match self.0.fetch(resources) {
            Ok(part) => part,
            Err(error) => {
                return Err(error);
            },
        };
        Ok((part_a,))
    }
}

impl<'a, A: Fetch<'a>, B: Fetch<'a>> Fetch<'a> for (A, B) {
    type Refs = (A::Refs, B::Refs);

    /// A success holds what each part fetched. A failure is that of the first
    /// part to fail, all parts before it having succeeded.
    open spec fn may_fetch(
        &self,
        resources: &'a Resources,
        fetched: Result<Self::Refs, ResourceError>,
    ) -> bool {
        match fetched {
            Ok((part_a, part_b)) => {
                self.0.may_fetch(resources, Ok(part_a))
                    && self.1.may_fetch(resources, Ok(part_b))
            },
            Err(error) => {
                ||| self.0.may_fetch(resources, Err(error))
                ||| exists|part_a: A::Refs|
                    #![trigger self.0.may_fetch(resources, Ok(part_a))]
                    self.0.may_fetch(resources, Ok(part_a))
                        && self.1.may_fetch(resources, Err(error))
            },
        }
    }

    /// The parts are fetched from left to right. The first failure ends the
    /// fetch, and what was fetched before it is given back to the store.
    fn fetch(&self, resources: &'a Resources) -> (fetched: Result<Self::Refs, ResourceError>) {
        let part_a = match self.0.fetch(resources) {
            Ok(part) => part,
            Err(error) => {
                return Err(error);
            },
        };
        let part_b = match self.1.fetch(resources) {
            Ok(part) => part,
            Err(error) => {
                return Err(error);
            },
        };
        Ok((part_a, part_b))
    }
}

impl<'a, A: Fetch<'a>, B: Fetch<'a>, C: Fetch<'a>> Fetch<'a> for (A, B, C) {
    type Refs = (A::Refs, B::Refs, C::Refs);

    /// A success holds what each part fetched. A failure is that of the first
    /// part to fail, all parts before it having succeeded.
    open spec fn may_fetch(
        &self,
        resources: &'a Resources,
        fetched: Result<Self::Refs, ResourceError>,
    ) -> bool {
        match fetched {
            Ok((part_a, part_b, part_c)) => {
                self.0.may_fetch(resources, Ok(part_a))
                    && self.1.may_fetch(resources, Ok(part_b))
                    && self.2.may_fetch(resources, Ok(part_c))
            },
            Err(error) => {
                ||| self.0.may_fetch(resources, Err(error))
                ||| exists|part_a: A::Refs|
                    #![trigger self.0.may_fetch(resources, Ok(part_a))]
                    self.0.may_fetch(resources, Ok(part_a))
                        && self.1.may_fetch(resources, Err(error))
                ||| exists|part_a: A::Refs, part_b: B::Refs|
                    #![trigger
                        self.0.may_fetch(resources, Ok(part_a)),
                        self.1.may_fetch(resources, Ok(part_b)),
                    ]
                    self.0.may_fetch(resources, Ok(part_a))
                        && self.1.may_fetch(resources, Ok(part_b))
                        && self.2.may_fetch(resources, Err(error))
            },
        }
    }

    /// The parts are fetched from left to right. The first failure ends the
    /// fetch, and what was fetched before it is given back to the store.
    fn fetch(&self, resources: &'a Resources) -> (fetched: Result<Self::Refs, ResourceError>) {
        let part_a = match self.0.fetch(resources) {
            Ok(part) => part,
            Err(error) => {
                return Err(error);
            },
        };
        let part_b = match self.1.fetch(resources) {
            Ok(part) => part,
            Err(error) => {
                return Err(error);
            },
        };
        let part_c = match self.2.fetch(resources) {
            Ok(part) => part,
            Err(error) => {
                return Err(error);
            },
        };
        Ok((part_a, part_b, part_c))
    }
}

impl<'a, A: Fetch<'a>, B: Fetch<'a>, C: Fetch<'a>, D: Fetch<'a>> Fetch<'a> for (A, B, C, D) {
    type Refs = (A::Refs, B::Refs, C::Refs, D::Refs);

    /// A success holds what each part fetched. A failure is that of the first
    /// part to fail, all parts before it having succeeded.
    open spec fn may_fetch(
        &self,
        resources: &'a Resources,
        fetched: Result<Self::Refs, ResourceError>,
    ) -> bool {
        match fetched {
            Ok((part_a, part_b, part_c, part_d)) => {
                self.0.may_fetch(resources, Ok(part_a))
                    && self.1.may_fetch(resources, Ok(part_b))
                    && self.2.may_fetch(resources, Ok(part_c))
                    && self.3.may_fetch(resources, Ok(part_d))
            },
            Err(error) => {
                ||| self.0.may_fetch(resources, Err(error))
                ||| exists|part_a: A::Refs|
                    #![trigger self.0.may_fetch(resources, Ok(part_a))]
                    self.0.may_fetch(resources, Ok(part_a))
                        && self.1.may_fetch(resources, Err(error))
                ||| exists|part_a: A::Refs, part_b: B::Refs|
                    #![trigger
                        self.0.may_fetch(resources, Ok(part_a)),
                        self.1.may_fetch(resources, Ok(part_b)),
                    ]
                    self.0.may_fetch(resources, Ok(part_a))
                        && self.1.may_fetch(resources, Ok(part_b))
                        && self.2.may_fetch(resources, Err(error))
                ||| exists|part_a: A::Refs, part_b: B::Refs, part_c: C::Refs|
                    #![trigger
                        self.0.may_fetch(resources, Ok(part_a)),
                        self.1.may_fetch(resources, Ok(part_b)),
                        self.2.may_fetch(resources, Ok(part_c)),
                    ]
                    self.0.may_fetch(resources, Ok(part_a))
                        && self.1.may_fetch(resources, Ok(part_b))
                        && self.2.may_fetch(resources, Ok(part_c))
                        && self.3.may_fetch(resources, Err(error))
            },
        }
    }

    /// The parts are fetched from left to right. The first failure ends the
    /// fetch, and what was fetched before it is given back to the store.
    fn fetch(&self, resources: &'a Resources) -> (fetched: Result<Self::Refs, ResourceError>) {
        let part_a = match self.0.fetch(resources) {
            Ok(part) => part,
            Err(error) => {
                return Err(error);
            },
        };
        let part_b = match self.1.fetch(resources) {
            Ok(part) => part,
            Err(error) => {
                return Err(error);
            },
        };
        let part_c = match self.2.fetch(resources) {
            Ok(part) => part,
            Err(error) => {
                return Err(error);
            },
        };
        let part_d = match self.3.fetch(resources) {
            Ok(part) => part,
            Err(error) => {
                return Err(error);
            },
        };
        Ok((part_a, part_b, part_c, part_d))
    }
}

} // verus!
