//! The parts of the page that are always the same.

use vstd::prelude::*;

verus! {

/// The page up to the address of the challenge.
pub const PAGE_HEAD: &'static str = "<!DOCTYPE html>
<html lang=\"en\">
<head>
  <meta charset=\"utf-8\" />
  <meta name=\"viewport\" content=\"width=device-width, initial-scale=1\" />
  <title>Rinha de Backend 2026 Leaderboard</title>
  <style>
    :root { color-scheme: dark; }
    * { box-sizing: border-box; }
    body { margin: 0; font-family: Inter, ui-sans-serif, system-ui, sans-serif; background: #09111f; color: #ebf2ff; }
    main { max-width: 1440px; margin: 0 auto; padding: 32px 20px 48px; }
    h1 { margin: 0; font-size: clamp(2rem, 3vw, 3rem); }
    p { color: #b5c3de; line-height: 1.6; }
    .hero { display: grid; gap: 16px; margin-bottom: 24px; }
    .hero-links { display: flex; flex-wrap: wrap; gap: 12px; margin-top: 14px; }
    .cards { display: grid; grid-template-columns: repeat(auto-fit, minmax(180px, 1fr)); gap: 16px; margin: 24px 0; }
    .card, .table-wrap { background: rgba(11, 20, 39, 0.88); border: 1px solid #22314f; border-radius: 18px; box-shadow: 0 12px 40px rgba(0,0,0,.22); }
    .card { padding: 20px; }
    .label { display: block; font-size: 0.8rem; text-transform: uppercase; color: #7f91b2; margin-bottom: 8px; letter-spacing: .08em; }
    .value { font-size: 1.9rem; font-weight: 700; }
    .table-wrap { overflow: auto; }
    table { width: 100%; border-collapse: collapse; min-width: 1200px; }
    th, td { padding: 14px 16px; text-align: left; border-bottom: 1px solid #1b2742; vertical-align: top; }
    th { position: sticky; top: 0; background: #0c1528; color: #8fa4cb; font-size: 0.8rem; text-transform: uppercase; letter-spacing: .06em; }
    tr:hover td { background: rgba(21, 34, 61, 0.78); }
    .open-to-work-row td:first-child { box-shadow: inset 4px 0 0 #22c55e; }
    a { color: #88b4ff; text-decoration: none; font-weight: 600; }
    a:hover { text-decoration: underline; }
    .user-link { display: block; }
    .muted { display: block; color: #6f81a5; margin-top: 4px; font-size: 0.88rem; }
    .otw-badge { display: inline-block; margin-top: 8px; padding: 3px 8px; border-radius: 999px; background: rgba(34, 197, 94, 0.18); border: 1px solid rgba(34, 197, 94, 0.5); color: #8df0af; font-size: 0.77rem; font-weight: 700; letter-spacing: .03em; }
    .rank { font-weight: 700; color: #ffd166; }
    code { font-family: ui-monospace, SFMono-Regular, monospace; color: #d6e3ff; }
    .footer { margin-top: 16px; color: #7f91b2; font-size: .95rem; }
    .empty { padding: 32px; text-align: center; color: #9eb0cf; }
    .icon-links { display: flex; flex-wrap: nowrap; justify-content: flex-end; gap: 8px; }
    .icon-link { display: inline-flex; align-items: center; justify-content: center; min-width: 34px; height: 34px; border-radius: 999px; border: 1px solid #31466f; background: rgba(26, 41, 73, 0.88); text-decoration: none; }
    .icon-link:hover { background: rgba(40, 62, 105, 0.95); text-decoration: none; }
    .challenge-link { display: inline-flex; align-items: center; gap: 10px; padding: 12px 16px; border-radius: 14px; border: 1px solid rgba(96, 165, 250, 0.45); background: linear-gradient(135deg, rgba(30, 64, 175, 0.95), rgba(37, 99, 235, 0.88)); color: #eff6ff; text-decoration: none; box-shadow: 0 10px 28px rgba(30, 64, 175, 0.28); }
    .challenge-link:hover { background: linear-gradient(135deg, rgba(37, 99, 235, 1), rgba(59, 130, 246, 0.92)); text-decoration: none; }
    .challenge-copy { display: flex; flex-direction: column; line-height: 1.15; }
    .challenge-kicker { font-size: 0.72rem; text-transform: uppercase; letter-spacing: 0.08em; color: rgba(219, 234, 254, 0.82); }
    .challenge-title { font-size: 0.96rem; font-weight: 800; color: #f8fbff; }
    .no-transform { text-transform: none; }
    .actions-cell { width: 1%; white-space: nowrap; text-align: right; }
    .center-cell { text-align: center; }
  </style>
</head>
<body>
  <main>
    <section class=\"hero\">
      <div>
        <h1>Rinha de Backend 2026 Leaderboard</h1>
        <p>All closed submissions are evaluated, and the <strong>best result per GitHub user</strong> is kept. Ranking is based on <strong>final_score</strong>, with lower p99 breaking ties.</p>
        <div class=\"hero-links\">
          <a class=\"challenge-link\" href=\"";

/// The page from there to the number of participants.
pub const PAGE_TO_COUNT: &'static str = "\" target=\"_blank\" rel=\"noreferrer\" title=\"Official challenge repository\">
            <span aria-hidden=\"true\">🏁</span>
            <span class=\"challenge-copy\">
              <span class=\"challenge-kicker\">Official repository</span>
              <span class=\"challenge-title\">View the Rinha de Backend 2026 challenge</span>
            </span>
          </a>
        </div>
      </div>
      <div class=\"cards\">
        <article class=\"card\"><span class=\"label\">Participants</span><span class=\"value\">";

/// The page from there to the top score.
pub const PAGE_TO_SCORE: &'static str = "</span></article>
        <article class=\"card\"><span class=\"label\">Top score</span><span class=\"value\">";

/// The page from there to the time of the last refresh.
pub const PAGE_TO_TIME: &'static str = "</span></article>
        <article class=\"card\"><span class=\"label\">Refresh interval</span><span class=\"value\">5 min</span></article>
        <article class=\"card\"><span class=\"label\">Updated</span><span class=\"value\">";

/// The page from there to the table.
pub const PAGE_TO_TABLE: &'static str = "</span></article>
      </div>
    </section>
    <section class=\"table-wrap\">
      ";

/// The page from there to the status message.
pub const PAGE_TO_STATUS: &'static str = "
    </section>
    <p class=\"footer\">JSON API available at <code>/api/leaderboard</code>. ";

/// The end of the page.
pub const PAGE_END: &'static str = "</p>
  </main>
</body>
</html>";

/// The table up to its rows.
pub const TABLE_HEAD: &'static str = "<table>
                    <thead>
                        <tr>
                            <th>Rank</th>
                            <th>User</th>
                            <th>Stack</th>
                            <th>Final score</th>
                            <th>Failure rate</th>
                            <th>P99</th>
                            <th>CPU</th>
                            <th>Mem (MB)</th>
                            <th>HTTP errors</th>
                            <th>Breakdown</th>
                            <th>Weighted errors</th>
                            <th>Error rate <span class=\"no-transform\">ε</span></th>
                            <th>Issue time</th>
                            <th>Links</th>
                        </tr>
                    </thead>
                    <tbody>";

/// The end of the table.
pub const TABLE_END: &'static str = "</tbody>
                </table>";

/// What stands in place of an empty table.
pub const EMPTY_TABLE: &'static str = "<div class=\"empty\">No leaderboard snapshot yet. The background sync may still be warming up, or GitHub may have rejected the latest refresh.</div>";

} // verus!
