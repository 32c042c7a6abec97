use vstd::prelude::*;

use crate::lefdef::{Def, DbError, DefRow, Lef};
use crate::numeric::Numeric;

verus! {

pub open spec fn lef_units_spec<T>(lef: &Lef<T>) -> Result<i32, DbError> {
    match lef.database_units {
        Some(u) => Ok(u),
        None => Err(DbError::MissingLefUnits),
    }
}

/// LEF database units per micron.
pub fn get_lef_units<T>(lef: &Lef<T>) -> (r: Result<i32, DbError>)
    ensures
        r == lef_units_spec(lef),
{
    match lef.database_units {
        Some(u) => Ok(u),
        None => Err(DbError::MissingLefUnits),
    }
}

/// The factor that turns DEF distances into LEF database units:
/// `lef_units / def_units`.
pub open spec fn lef_def_units_spec<T: Numeric>(lef: &Lef<T>, def: &Def<T>) -> Result<T, DbError> {
    match lef.database_units {
        None => Err(DbError::MissingLefUnits),
        Some(l) => match def.units {
            None => Err(DbError::MissingDefUnits),
            Some(d) => Ok(T::from_i32_spec(l).div_spec(T::from_i32_spec(d))),
        },
    }
}

pub fn get_lef_def_units<T: Numeric>(lef: &Lef<T>, def: &Def<T>) -> (r: Result<T, DbError>)
    ensures
        r == lef_def_units_spec(lef, def),
{
    let lef_units_raw = match lef.database_units {
        Some(u) => u,
        None => return Err(DbError::MissingLefUnits),
    };
    let def_units_raw = match def.units {
        Some(u) => u,
        None => return Err(DbError::MissingDefUnits),
    };
    let lef_units = T::from_i32(lef_units_raw);
    let def_units = T::from_i32(def_units_raw);
    Ok(lef_units.div(def_units))
}

/// The scale of LEF lengths: LEF database units times the placement
/// `scale`.
pub open spec fn lef_scale_spec<T: Numeric>(lef: &Lef<T>, scale: T) -> Result<T, DbError> {
    match lef.database_units {
        None => Err(DbError::MissingLefUnits),
        Some(u) => Ok(T::from_i32_spec(u).mul_spec(scale)),
    }
}

pub fn get_lef_scale<T: Numeric>(lef: &Lef<T>, scale: T) -> (r: Result<T, DbError>)
    ensures
        r == lef_scale_spec(lef, scale),
{
    let units = match get_lef_units(lef) {
        Ok(u) => u,
        Err(e) => return Err(e),
    };
    Ok(T::from_i32(units).mul(scale))
}

/// The rows of `rows` that belong to the site named `site`.
pub open spec fn row_of_site(rows: Seq<DefRow>, site: Seq<char>, i: int) -> bool {
    0 <= i < rows.len() && rows[i].site@ == site
}

/// Where the rows of a site start: the least `x` and the least `y` over
/// the rows of that site, or `None` when the site has no row.
pub fn site_row_offset(rows: &Vec<DefRow>, site: &String) -> (r: Option<(i32, i32)>)
    ensures
        r is None <==> forall|i: int| !row_of_site(rows@, site@, i),
        r matches Some((mx, my)) ==> {
            &&& exists|i: int| row_of_site(rows@, site@, i) && rows@[i].x == mx
            &&& exists|i: int| row_of_site(rows@, site@, i) && rows@[i].y == my
            &&& forall|i: int| row_of_site(rows@, site@, i) ==> mx <= rows@[i].x && my <= rows@[i].y
        },
{
    let mut best: Option<(i32, i32)> = None;
    let ghost mut wx: int = 0;
    let ghost mut wy: int = 0;
    let mut i: usize = 0;
    while i < rows.len()
        invariant
            i <= rows@.len(),
            best is None <==> forall|k: int| 0 <= k < i ==> !row_of_site(rows@, site@, k),
            best matches Some((mx, my)) ==> {
                &&& 0 <= wx < i && row_of_site(rows@, site@, wx) && rows@[wx].x == mx
                &&& 0 <= wy < i && row_of_site(rows@, site@, wy) && rows@[wy].y == my
                &&& forall|k: int| 0 <= k < i && row_of_site(rows@, site@, k) ==> mx <= rows@[k].x && my <= rows@[k].y
            },
        decreases rows@.len() - i,
    {
        if rows[i].site == *site {
            let rx = rows[i].x;
            let ry = rows[i].y;
            match best {
                None => {
                    best = Some((rx, ry));
                    proof {
                        wx = i as int;
                        wy = i as int;
                    }
                },
                Some((mx, my)) => {
                    let nx = if rx < mx {
                        proof {
                            wx = i as int;
                        }
                        rx
                    } else {
                        mx
                    };
                    let ny = if ry < my {
                        proof {
                            wy = i as int;
                        }
                        ry
                    } else {
                        my
                    };
                    best = Some((nx, ny));
                },
            }
        }
        proof {
            if best is Some {
                assert(row_of_site(rows@, site@, wx));
            }
        }
        i = i + 1;
    }
    proof {
        if best is Some {
            assert(row_of_site(rows@, site@, wx));
            assert(row_of_site(rows@, site@, wy));
        }
    }
    best
}

} // verus!
