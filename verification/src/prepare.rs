//! Packaging a loaded table for the renderer: the X column is chosen, the Y
//! columns are chosen, each Y series is paired with the X series, and the
//! rendering options are resolved. Series longer than the downsample
//! threshold are then reduced by `apply_downsampling`, which decides which
//! series to reduce and sets the `downsampled` flag; only the per-bucket
//! survivor choices come from the caller, since picking the largest triangle
//! takes floating-point arithmetic.
use vstd::prelude::*;

use crate::cli::Cli;
use crate::coerce::clone_column;
use crate::downsample::{downsample_series, numeric_pairs_spec, reduced_col_views, valid_choices};
use crate::error::AppError;
use crate::select::{select_x_series, select_y_series, selected_x, selected_ys};
use crate::table::{ColView, Column, Table};

verus! {

/// Everything the renderer needs for one plot.
#[derive(Debug)]
pub struct PlotData {
    /// The title of the plot.
    pub title: String,
    /// The series to plot: for each, its name, its X column and its Y column.
    pub series_list: Vec<(String, Column, Column)>,
    /// The string that marks vertical reference lines.
    pub special_marker: String,
    /// Whether the Y axis rescales to the visible points on zoom.
    pub autoscale_y: bool,
    /// Whether the chart animates.
    pub animations: bool,
    /// Decimal places for numeric display; negative means unlimited.
    pub max_decimals: i32,
    /// Whether the light theme is used.
    pub use_white_theme: bool,
    /// Above how many points a series renders in the fast mode.
    pub large_mode_threshold: usize,
    /// Whether any series was reduced.
    pub downsampled: bool,
}

/// The series list as mathematical values: name, X column view, Y column
/// view.
pub open spec fn series_view(s: Seq<(String, Column, Column)>) -> Seq<
    (Seq<char>, ColView, ColView),
> {
    Seq::new(s.len(), |k: int| (s[k].0@, s[k].1.data.dview(), s[k].2.data.dview()))
}

/// Choose the axes and resolve the options: each selected Y column is paired
/// with the selected X column, under its own name; the title falls back to
/// the file name. The series come out unreduced and `downsampled` reads
/// false; `apply_downsampling` then reduces the series beyond the threshold
/// and gives the flag its meaning.
#[verifier::loop_isolation(false)]
pub fn prepare_plot_data(t: &Table, cli: &Cli, file_name: &str) -> (r: Result<PlotData, AppError>)
    requires
        t.spec_height() <= i64::MAX,
    ensures
        match r {
            Ok(pd) => {
                &&& selected_x(*t, *cli) matches Some(xc) && {
                    &&& selected_ys(*t, *cli, xc.0) matches Some(yv) && {
                        &&& yv.len() > 0
                        &&& pd.series_list@.len() == yv.len()
                        &&& forall|k: int|
                            0 <= k < yv.len() ==> #[trigger] series_view(pd.series_list@)[k] == (
                            yv[k].0,
                            xc.1,
                            yv[k].1,
                            )
                    }
                }
                &&& pd.title@ == (match cli.title {
                    Some(s) => s@,
                    None => file_name@,
                })
                &&& pd.special_marker@ == cli.special_marker@
                &&& pd.autoscale_y == !cli.no_autoscale_y
                &&& pd.animations == cli.animations
                &&& pd.max_decimals == cli.max_decimals
                &&& pd.use_white_theme == cli.white_theme
                &&& pd.large_mode_threshold == cli.large_mode_threshold
                &&& pd.downsampled == false
            },
            Err(e) => {
                ||| (selected_x(*t, *cli) is None && (e is ColumnNotFound || e is EmptyData))
                ||| (selected_x(*t, *cli) matches Some(xc) && match selected_ys(
                    *t,
                    *cli,
                    xc.0,
                ) {
                    Some(yv) => yv.len() == 0 && e is NoNumericColumns,
                    None => e is ColumnNotFound,
                })
            },
        },
{
    let (x_col, x_name) = match select_x_series(t, cli) {
        Ok(p) => p,
        Err(e) => {
            return Err(e);
        },
    };
    let y_cols = match select_y_series(t, cli, &x_name) {
        Ok(cols) => cols,
        Err(e) => {
            return Err(e);
        },
    };
    let ghost xc = (x_name@, x_col.data.dview());
    let ghost yv = selected_ys(*t, *cli, x_name@)->Some_0;
    proof {
        assert(crate::table::cols_view(y_cols@) == yv);
    }
    let mut series_list: Vec<(String, Column, Column)> = Vec::new();
    let nsel = y_cols.len();
    let mut k: usize = 0;
    while k < nsel
        invariant
            0 <= k <= nsel,
            nsel == y_cols@.len(),
            yv == crate::table::cols_view(y_cols@),
            xc.1 == x_col.data.dview(),
            series_list@.len() == k,
            forall|m: int|
                0 <= m < k ==> #[trigger] series_view(series_list@)[m] == (
                yv[m].0,
                xc.1,
                yv[m].1,
                ),
        decreases nsel - k,
    {
        let ycol = clone_column(&y_cols[k]);
        let name = ycol.name.clone();
        let xcopy = clone_column(&x_col);
        let ghost before = series_list@;
        series_list.push((name, xcopy, ycol));
        proof {
            assert forall|m: int| 0 <= m < k + 1 implies #[trigger] series_view(
                series_list@,
            )[m] == (yv[m].0, xc.1, yv[m].1) by {
                if m < k {
                    assert(series_list@[m] == before[m]);
                    assert(series_view(series_list@)[m] == series_view(before)[m]);
                } else {
                    assert(crate::table::cols_view(y_cols@)[m] == (
                        y_cols@[m].name@,
                        y_cols@[m].data.dview(),
                    ));
                }
            }
        }
        k = k + 1;
    }
    let title: String = match &cli.title {
        Some(s) => s.clone(),
        None => file_name.to_owned(),
    };
    Ok(
        PlotData {
            title,
            series_list,
            special_marker: cli.special_marker.clone(),
            autoscale_y: !cli.no_autoscale_y,
            animations: cli.animations,
            max_decimals: cli.max_decimals,
            use_white_theme: cli.white_theme,
            large_mode_threshold: cli.large_mode_threshold,
            downsampled: false,
        },
    )
}

/// Does a series of this length trip the configured reduction threshold?
pub open spec fn needs_reduction(len: nat, downsample: Option<usize>) -> bool {
    downsample matches Some(t) && len > t
}

/// Reduce every series whose Y column is longer than the configured
/// threshold, with the caller's per-bucket survivor choices — one choice
/// vector per series, ignored for series that stay. On success `downsampled`
/// reads true exactly when some series tripped the threshold; the tripped
/// series become the reduced numeric columns, every other series and every
/// option keeps its value. `false` — with nothing changed — exactly when
/// some tripped series needed bucket choices that do not fit.
#[verifier::loop_isolation(false)]
pub fn apply_downsampling(
    pd: &mut PlotData,
    downsample: Option<usize>,
    choices: &Vec<Vec<usize>>,
) -> (r: bool)
    requires
        choices@.len() == old(pd).series_list@.len(),
        forall|k: int|
            0 <= k < old(pd).series_list@.len() ==> (#[trigger] old(
                pd,
            ).series_list@[k].1.data).spec_len() == old(pd).series_list@[k].2.data.spec_len(),
    ensures
        final(pd).title@ == old(pd).title@,
        final(pd).special_marker@ == old(pd).special_marker@,
        final(pd).autoscale_y == old(pd).autoscale_y,
        final(pd).animations == old(pd).animations,
        final(pd).max_decimals == old(pd).max_decimals,
        final(pd).use_white_theme == old(pd).use_white_theme,
        final(pd).large_mode_threshold == old(pd).large_mode_threshold,
        r ==> {
            &&& final(pd).series_list@.len() == old(pd).series_list@.len()
            &&& final(pd).downsampled == exists|k: int|
                0 <= k < old(pd).series_list@.len() && needs_reduction(
                    (#[trigger] old(pd).series_list@[k].2.data).spec_len(),
                    downsample,
                )
            &&& forall|k: int|
                0 <= k < old(pd).series_list@.len() ==> #[trigger] series_view(
                    final(pd).series_list@,
                )[k] == {
                    let s = old(pd).series_list@[k];
                    if needs_reduction(s.2.data.spec_len(), downsample) {
                        let rc = reduced_col_views(
                            s.1.data,
                            s.2.data,
                            downsample->Some_0 as int,
                            choices@[k]@,
                        );
                        (s.0@, rc.0, rc.1)
                    } else {
                        series_view(old(pd).series_list@)[k]
                    }
                }
        },
        !r ==> {
            &&& series_view(final(pd).series_list@) == series_view(old(pd).series_list@)
            &&& final(pd).downsampled == old(pd).downsampled
            &&& exists|k: int|
                0 <= k < old(pd).series_list@.len() && needs_reduction(
                    (#[trigger] old(pd).series_list@[k].2.data).spec_len(),
                    downsample,
                ) && 3 <= downsample->Some_0 < numeric_pairs_spec(
                    old(pd).series_list@[k].1.data,
                    old(pd).series_list@[k].2.data,
                ).len() && !valid_choices(
                    numeric_pairs_spec(
                        old(pd).series_list@[k].1.data,
                        old(pd).series_list@[k].2.data,
                    ).len() as int,
                    downsample->Some_0 as int,
                    choices@[k]@,
                )
        },
{
    let ghost old_series = old(pd).series_list@;
    let n = pd.series_list.len();
    let mut new_list: Vec<(String, Column, Column)> = Vec::new();
    let mut any = false;
    let mut k: usize = 0;
    while k < n
        invariant
            0 <= k <= n,
            n == pd.series_list@.len(),
            pd.series_list@ == old_series,
            pd.downsampled == old(pd).downsampled,
            pd.title@ == old(pd).title@,
            pd.special_marker@ == old(pd).special_marker@,
            pd.autoscale_y == old(pd).autoscale_y,
            pd.animations == old(pd).animations,
            pd.max_decimals == old(pd).max_decimals,
            pd.use_white_theme == old(pd).use_white_theme,
            pd.large_mode_threshold == old(pd).large_mode_threshold,
            new_list@.len() == k,
            any == exists|m: int|
                0 <= m < k && needs_reduction(
                    (#[trigger] old_series[m].2.data).spec_len(),
                    downsample,
                ),
            forall|m: int|
                0 <= m < k ==> #[trigger] series_view(new_list@)[m] == {
                    let s = old_series[m];
                    if needs_reduction(s.2.data.spec_len(), downsample) {
                        let rc = reduced_col_views(
                            s.1.data,
                            s.2.data,
                            downsample->Some_0 as int,
                            choices@[m]@,
                        );
                        (s.0@, rc.0, rc.1)
                    } else {
                        series_view(old_series)[m]
                    }
                },
        decreases n - k,
    {
        let entry = &pd.series_list[k];
        let ylen = entry.2.data.len();
        let reduce: bool = match downsample {
            Some(t) => ylen > t,
            None => false,
        };
        let ghost before = new_list@;
        if reduce {
            let t: usize = match downsample {
                Some(t) => t,
                None => 0,
            };
            match downsample_series(&entry.1.data, &entry.2.data, t, &choices[k]) {
                Some(cols) => {
                    let xcol = Column { name: entry.1.name.clone(), data: cols.0 };
                    let ycol = Column { name: entry.2.name.clone(), data: cols.1 };
                    new_list.push((entry.0.clone(), xcol, ycol));
                    any = true;
                },
                None => {
                    proof {
                        assert(series_view(pd.series_list@) == series_view(old_series));
                    }
                    return false;
                },
            }
        } else {
            let xcol = clone_column(&entry.1);
            let ycol = clone_column(&entry.2);
            new_list.push((entry.0.clone(), xcol, ycol));
            proof {
                assert(series_view(new_list@)[k as int] == series_view(old_series)[k as int]);
            }
        }
        k = k + 1;
        proof {
            assert forall|m: int| 0 <= m < k implies #[trigger] series_view(new_list@)[m] == {
                let s = old_series[m];
                if needs_reduction(s.2.data.spec_len(), downsample) {
                    let rc = reduced_col_views(
                        s.1.data,
                        s.2.data,
                        downsample->Some_0 as int,
                        choices@[m]@,
                    );
                    (s.0@, rc.0, rc.1)
                } else {
                    series_view(old_series)[m]
                }
            } by {
                if m < k - 1 {
                    assert(new_list@[m] == before[m]);
                    assert(series_view(new_list@)[m] == series_view(before)[m]);
                }
            }
        }
    }
    pd.series_list = new_list;
    pd.downsampled = any;
    true
}

} // verus!
