//! The self-contained HTML viewer: both images embedded as `data:` URIs, a
//! threshold slider starting at the given threshold, and the same pixel rule
//! as the PNG mode computed in the browser.

use vstd::prelude::*;
use vstd::string::StringExecFns;

use crate::text::push_char;

verus! {

/// The page up to the initial value of the threshold slider.
pub const HTML_HEAD: &'static str = r##"<!doctype html>
<html lang="en">
<head>
<meta charset="utf-8">
<meta name="viewport" content="width=device-width, initial-scale=1">
<title>shotdiff</title>
<style>
  :root { --pink: #FF2D87; }
  * { box-sizing: border-box; }
  body { margin: 0; background: #111; color: #ddd; font: 14px/1.4 -apple-system, system-ui, sans-serif; }
  header { position: sticky; top: 0; z-index: 2; display: flex; gap: 20px; align-items: center;
           flex-wrap: wrap; padding: 12px 16px; background: #1c1c1c; border-bottom: 1px solid #333; }
  header h1 { font-size: 14px; margin: 0; color: var(--pink); letter-spacing: .5px; }
  label { display: inline-flex; align-items: center; gap: 8px; white-space: nowrap; }
  output { min-width: 2.5em; color: #fff; font-variant-numeric: tabular-nums; }
  #stats { margin-left: auto; color: #9aa; font-variant-numeric: tabular-nums; }
  .row { display: flex; gap: 16px; align-items: flex-start; padding: 16px; overflow: auto; }
  figure { margin: 0; flex: 0 0 auto; }
  figcaption { text-align: center; padding: 4px; color: #888; letter-spacing: 1px; font-size: 12px; }
  canvas { display: block; background: #222; image-rendering: pixelated;
            box-shadow: 0 0 0 1px #333; }
</style>
</head>
<body>
<header>
  <h1>shotdiff</h1>
  <label>threshold
    <input id="th" type="range" min="0" max="255" value=""##;

/// Between the slider's value and the label that shows it.
pub const HTML_THRESHOLD_LABEL: &'static str = r##"">
    <output id="thv">"##;

/// From the label to the string literal of the BEFORE image.
pub const HTML_BODY: &'static str = r##"</output>
  </label>
  <label>zoom
    <input id="zoom" type="range" min="10" max="200" value="100">
    <output id="zoomv">100%</output>
  </label>
  <label><input id="ctx" type="checkbox" checked> grey context</label>
  <span id="stats">computing…</span>
</header>
<div class="row">
  <figure><figcaption>BEFORE</figcaption><canvas id="ca"></canvas></figure>
  <figure><figcaption>DIFF</figcaption><canvas id="cd"></canvas></figure>
  <figure><figcaption>AFTER</figcaption><canvas id="cb"></canvas></figure>
</div>
<script>
const SRC_A = ""##;

/// Between the BEFORE and the AFTER image.
pub const HTML_SOURCE_SEPARATOR: &'static str = r##"";
const SRC_B = ""##;

/// The rest of the page after the AFTER image.
pub const HTML_TAIL: &'static str = r##"";
const PINK = [255, 45, 135];

function load(src) {
  return new Promise((res, rej) => {
    const im = new Image();
    im.onload = () => res(im);
    im.onerror = () => rej(new Error("failed to decode image"));
    im.src = src;
  });
}

function padData(im, W, H) {
  const c = document.createElement("canvas");
  c.width = W; c.height = H;
  const x = c.getContext("2d");
  x.drawImage(im, 0, 0);
  return x.getImageData(0, 0, W, H);
}

(async () => {
  let ia, ib;
  try { [ia, ib] = await Promise.all([load(SRC_A), load(SRC_B)]); }
  catch (e) { document.getElementById("stats").textContent = "error: " + e.message; return; }

  const W = Math.max(ia.naturalWidth, ib.naturalWidth);
  const H = Math.max(ia.naturalHeight, ib.naturalHeight);
  const da = padData(ia, W, H);
  const db = padData(ib, W, H);

  const ca = document.getElementById("ca");
  const cb = document.getElementById("cb");
  const cd = document.getElementById("cd");
  for (const c of [ca, cb, cd]) { c.width = W; c.height = H; }
  ca.getContext("2d").putImageData(da, 0, 0);
  cb.getContext("2d").putImageData(db, 0, 0);
  const xd = cd.getContext("2d");
  const out = xd.createImageData(W, H);

  const sizeNote = (ia.naturalWidth !== ib.naturalWidth || ia.naturalHeight !== ib.naturalHeight)
    ? `  ⚠ size mismatch (${ia.naturalWidth}×${ia.naturalHeight} vs ${ib.naturalWidth}×${ib.naturalHeight})` : "";

  function compute() {
    const th = +document.getElementById("th").value;
    const grey = document.getElementById("ctx").checked;
    const A = da.data, B = db.data, O = out.data;
    let changed = 0;
    for (let i = 0; i < A.length; i += 4) {
      const d = Math.max(
        Math.abs(A[i] - B[i]),
        Math.abs(A[i+1] - B[i+1]),
        Math.abs(A[i+2] - B[i+2]),
        Math.abs(A[i+3] - B[i+3]));
      if (d > th) {
        changed++;
        O[i] = PINK[0]; O[i+1] = PINK[1]; O[i+2] = PINK[2]; O[i+3] = 255;
      } else if (grey) {
        const v = Math.min(255, 128 + ((0.299*B[i] + 0.587*B[i+1] + 0.114*B[i+2]) | 0) / 2) | 0;
        O[i] = O[i+1] = O[i+2] = v; O[i+3] = 255;
      } else {
        O[i] = B[i]; O[i+1] = B[i+1]; O[i+2] = B[i+2]; O[i+3] = 255;
      }
    }
    xd.putImageData(out, 0, 0);
    const total = W * H;
    const pct = total ? (changed / total * 100) : 0;
    document.getElementById("stats").textContent =
      `${W}×${H} · ${changed.toLocaleString()} / ${total.toLocaleString()} px changed (${pct.toFixed(3)}%)` + sizeNote;
  }

  function applyZoom() {
    const z = +document.getElementById("zoom").value / 100;
    for (const c of [ca, cb, cd]) { c.style.width = (W * z) + "px"; c.style.height = (H * z) + "px"; }
    document.getElementById("zoomv").textContent = Math.round(z * 100) + "%";
  }

  document.getElementById("th").addEventListener("input", e => {
    document.getElementById("thv").textContent = e.target.value; compute();
  });
  document.getElementById("ctx").addEventListener("change", compute);
  document.getElementById("zoom").addEventListener("input", applyZoom);

  applyZoom();
  compute();
})();
</script>
</body>
</html>
"##;

/// The ASCII digit for a value 0 to 9.
pub open spec fn digit_char(d: int) -> char {
    (48 + d) as char
}

/// Decimal notation of `n`, without leading zeros.
pub open spec fn decimal(n: nat) -> Seq<char>
    decreases n,
{
    if n < 10 {
        seq![digit_char(n as int)]
    } else {
        decimal(n / 10).push(digit_char((n % 10) as int))
    }
}

fn digit(d: u8) -> (c: char)
    requires
        d < 10,
    ensures
        c == digit_char(d as int),
{
    ((48 + d) as u8) as char
}

/// Decimal notation of a byte.
pub fn u8_to_decimal(n: u8) -> (s: String)
    ensures
        s@ == decimal(n as nat),
{
    let mut s = String::new();
    if n >= 100 {
        push_char(&mut s, digit(n / 100));
    }
    if n >= 10 {
        push_char(&mut s, digit((n / 10) % 10));
    }
    push_char(&mut s, digit(n % 10));
    proof {
        let m = n as nat;
        if m >= 100 {
            assert(decimal(m / 100) == seq![digit_char((m / 100) as int)]);
            assert(m / 10 / 10 == m / 100);
            assert(decimal(m / 10) == decimal(m / 100).push(digit_char((m / 10 % 10) as int)));
        } else if m >= 10 {
            assert(decimal(m / 10) == seq![digit_char((m / 10) as int)]);
            assert(m / 10 % 10 == m / 10);
        }
        assert(s@ =~= decimal(m));
    }
    s
}

/// The viewer page for BEFORE at `uri_a`, AFTER at `uri_b` and the slider at `threshold`.
pub open spec fn spec_html(uri_a: Seq<char>, uri_b: Seq<char>, threshold: u8) -> Seq<char> {
    let t = decimal(threshold as nat);
    HTML_HEAD@ + t + HTML_THRESHOLD_LABEL@ + t + HTML_BODY@ + uri_a + HTML_SOURCE_SEPARATOR@ + uri_b
        + HTML_TAIL@
}

/// Builds the self-contained viewer page.
pub fn build_html(uri_a: &str, uri_b: &str, threshold: u8) -> (html: String)
    ensures
        html@ == spec_html(uri_a@, uri_b@, threshold),
{
    let t = u8_to_decimal(threshold);
    let mut html = String::from_str(HTML_HEAD);
    html.append(t.as_str());
    html.append(HTML_THRESHOLD_LABEL);
    html.append(t.as_str());
    html.append(HTML_BODY);
    html.append(uri_a);
    html.append(HTML_SOURCE_SEPARATOR);
    html.append(uri_b);
    html.append(HTML_TAIL);
    html
}

} // verus!
