//! The script injected into every panel at document start, on every navigation.
//!
//! It cannot use the shell's own bridge: an injected script runs without it on
//! a page we did not serve. So it posts to the loopback callback server
//! instead, and the app pushes back by evaluating scripts.
//!
//! There is one page it cannot post from, and it is the common one. WebKit
//! blocks an http request made by an https document, and unlike Chrome it does
//! not exempt `127.0.0.1`. Every Lando, DDEV and hosted site is https, so on
//! those pages the loopback route is dead: no ready report, no console lines,
//! no scroll sync. Those pages queue their messages instead and the app
//! collects them.

use vstd::prelude::*;
use vstd::string::StringExecFns;
use crate::json::{json_string, quote};
use crate::state::Endpoint;
use crate::text::{decimal, decimal_string};
use crate::tools::{wrap_script, WRAP_END, WRAP_START};

verus! {

pub const SCRIPT_START: &'static str =
    r##"(function () {
  if (window.__bpInstalled) return;
  window.__bpInstalled = true;
  var ID = "##;

pub const SCRIPT_AFTER_ID: &'static str =
    r##";
  var URL_BASE = "http://127.0.0.1:"##;

pub const SCRIPT_AFTER_PORT: &'static str =
    r##"";
  var NONCE = "##;

pub const SCRIPT_AFTER_NONCE: &'static str =
    r##";
  var ignoreUntil = 0, lastSent = 0, pending = null;
  var THROTTLE_MS = 60;

  // An https page cannot reach an
  // http loopback server in WebKit, so it queues instead of posting.
  var CAN_POST = location.protocol !== "https:";
  var OUT = [];
  var MAX_QUEUED = 300;

  // Called on every pump tick. Hands over the queue and empties it.
  window.__bpDrain = function () {
    var queued = OUT;
    OUT = [];
    return queued;
  };

  function post(path, body) {
    body.panel = ID;
    body.nonce = NONCE;
    if (!CAN_POST) {
      // Two of the same kind in a row are one decision written twice: the
      // newest scroll position wins, and wheel deltas add up.
      var last = OUT[OUT.length - 1];
      if (last && last.path === path && path === "/p/scroll") {
        last.body = body;
        return;
      }
      if (last && last.path === path && path === "/p/wheel") {
        last.body.dx += body.dx;
        return;
      }
      OUT.push({ path: path, body: body });
      if (OUT.length > MAX_QUEUED) OUT.splice(0, OUT.length - MAX_QUEUED);
      return;
    }
    try {
      fetch(URL_BASE + path, {
        method: "POST",
        // text/plain keeps this a simple request, so there is no preflight.
        headers: { "content-type": "text/plain;charset=UTF-8" },
        body: JSON.stringify(body),
        keepalive: true,
      }).catch(function () {});
    } catch (e) {}
  }

  function maxScroll() {
    return Math.max(0, document.documentElement.scrollHeight - window.innerHeight);
  }

  // Called by the app. The ignore window stops two panels pushing each other
  // back and forth forever.
  window.__bpApplyScroll = function (pct) {
    ignoreUntil = Date.now() + 200;
    window.scrollTo(0, pct * maxScroll());
  };

  function report() {
    lastSent = Date.now();
    var m = maxScroll();
    post("/p/scroll", { pct: m > 0 ? window.scrollY / m : 0 });
  }

  // Deliberately not requestAnimationFrame. WebKit suspends rAF in a webview
  // that is not in the frontmost window, which is exactly the case when an
  // agent is driving the app from a terminal, and the callback simply never
  // runs. A timer keeps working, and a leading-edge throttle still reports
  // about sixteen times a second while you drag.
  window.addEventListener("scroll", function () {
    if (Date.now() < ignoreUntil) return;
    var since = Date.now() - lastSent;
    if (since >= THROTTLE_MS) {
      report();
      return;
    }
    if (pending) return;
    pending = setTimeout(function () {
      pending = null;
      if (Date.now() >= ignoreUntil) report();
    }, THROTTLE_MS - since);
  }, { passive: true });

  // Something on the page that scrolls sideways and has somewhere left to go,
  // like a carousel. It asked for this gesture before we did.
  function ownsSideways(target, dx) {
    // A wheel event's target can be the document or the window, neither of
    // which has a parent or a computed style.
    var start = target && target.nodeType === 1 ? target : null;
    for (var n = start; n && n !== document.body; n = n.parentElement) {
      if (n.scrollWidth <= n.clientWidth + 1) continue;
      var overflow = getComputedStyle(n).overflowX;
      if (overflow !== "auto" && overflow !== "scroll") continue;
      var room = dx > 0
        ? n.scrollWidth - n.clientWidth - n.scrollLeft
        : n.scrollLeft;
      if (room > 1) return true;
    }
    return false;
  }

  // A two-finger sideways swipe pans the whole row, because the panel is
  // covering the chrome and the chrome is the only thing that could otherwise
  // hear it. Anything mostly vertical is left alone: it belongs to the page
  // under the pointer, which is what a person expects when they scroll a site.
  window.addEventListener("wheel", function (e) {
    if (Math.abs(e.deltaX) <= Math.abs(e.deltaY)) return;
    if (ownsSideways(e.target, e.deltaX)) return;
    e.preventDefault();
    post("/p/wheel", { dx: e.deltaX });
  }, { passive: false });

  function fmt(v) {
    if (typeof v === "string") return v;
    if (v instanceof Error) return v.message;
    try { return JSON.stringify(v); } catch (e) { return String(v); }
  }

  ["log", "info", "warn", "error"].forEach(function (level) {
    var orig = console[level];
    console[level] = function () {
      try {
        post("/p/console", {
          level: level,
          text: Array.prototype.map.call(arguments, fmt).join(" "),
        });
      } catch (e) {}
      return orig.apply(console, arguments);
    };
  });

  window.addEventListener("error", function (e) {
    post("/p/console", {
      level: "error",
      text: (e.message || "Script error") + " @ " + (e.filename || "") + ":" + (e.lineno || 0),
    });
  });

  window.addEventListener("unhandledrejection", function (e) {
    post("/p/console", { level: "error", text: "Unhandled rejection: " + fmt(e.reason) });
  });

  // Used while a full-page shot walks the page. A sticky header painted into
  // every tile is the thing that makes a stitched screenshot obviously fake,
  // so it is hidden for every tile after the first and put back afterwards.
  var pinned = [];
  window.__bpHidePinned = function () {
    if (pinned.length) return;
    var all = document.body ? document.body.querySelectorAll("*") : [];
    for (var i = 0; i < all.length; i++) {
      var position = getComputedStyle(all[i]).position;
      if (position !== "fixed" && position !== "sticky") continue;
      pinned.push([all[i], all[i].style.visibility]);
      all[i].style.visibility = "hidden";
    }
  };
  window.__bpShowPinned = function () {
    for (var i = 0; i < pinned.length; i++) {
      pinned[i][0].style.visibility = pinned[i][1];
    }
    pinned = [];
  };

  // A single page app changes the URL without loading a document, so this
  // script never runs again and a full load report never arrives. Watch the
  // history API instead.
  //
  // The fragment is deliberately left out of the comparison. An anchor link
  // changes only the hash, and scroll sync already carries the other panels to
  // the same place; reloading them for a jump inside a page they already have
  // would be worse than doing nothing. Analytics code also rewrites the hash
  // constantly, and every one of those would otherwise be a navigation.
  function here() {
    return location.origin + location.pathname + location.search;
  }
  var lastNav = here();
  function softNav() {
    var now = here();
    if (now === lastNav) return;
    lastNav = now;
    post("/p/nav", { url: location.href });
  }
  ["pushState", "replaceState"].forEach(function (name) {
    var orig = history[name];
    if (typeof orig !== "function") return;
    history[name] = function () {
      var out = orig.apply(this, arguments);
      try { softNav(); } catch (e) {}
      return out;
    };
  });
  window.addEventListener("popstate", softNav);

  // ---- Reporting a problem ------------------------------------------------
  //
  // Hover to highlight, click to describe. The whole thing lives inside the
  // page because the chrome cannot draw over a panel: panels are child webviews
  // that composite on top of it.
  //
  // Everything it adds is marked data-bp-ui, is ignored by the picker itself,
  // and is torn out again when picking stops, so the page is left as it was.
  var picking = false, hovered = null, box = null, tag = null, form = null;

  function ui(kind) {
    var el = document.createElement(kind);
    el.setAttribute("data-bp-ui", "1");
    return el;
  }

  function ours(node) {
    for (var n = node; n; n = n.parentElement) {
      if (n.nodeType === 1 && n.hasAttribute && n.hasAttribute("data-bp-ui")) return true;
    }
    return false;
  }

  // A selector you can paste into the console and get the same element back.
  // An id wins outright; otherwise walk up, using nth-of-type to stay exact.
  function selectorFor(el) {
    if (!el || el.nodeType !== 1) return "";
    if (el.id) return "#" + CSS.escape(el.id);
    var parts = [];
    for (var n = el; n && n.nodeType === 1 && n !== document.documentElement; n = n.parentElement) {
      var part = n.tagName.toLowerCase();
      if (n.id) { parts.unshift("#" + CSS.escape(n.id)); break; }
      var parent = n.parentElement;
      if (parent) {
        var same = [];
        for (var i = 0; i < parent.children.length; i++) {
          if (parent.children[i].tagName === n.tagName) same.push(parent.children[i]);
        }
        if (same.length > 1) part += ":nth-of-type(" + (same.indexOf(n) + 1) + ")";
      }
      parts.unshift(part);
      if (parts.length > 6) break;
    }
    return parts.join(" > ");
  }

  // What a person would call this thing, which is not the same as its selector.
  function nameFor(el) {
    var name = el.tagName.toLowerCase();
    if (el.id) return name + "#" + el.id;
    var cls = (el.getAttribute("class") || "").trim().split(/\s+/).filter(Boolean);
    return cls.length ? name + "." + cls.slice(0, 3).join(".") : name;
  }

  function place(el) {
    var r = el.getBoundingClientRect();
    box.style.top = (r.top + window.scrollY) + "px";
    box.style.left = (r.left + window.scrollX) + "px";
    box.style.width = r.width + "px";
    box.style.height = r.height + "px";
    tag.textContent = nameFor(el) + "  " + Math.round(r.width) + " x " + Math.round(r.height);
    // Above the box unless it would go off the top.
    var above = r.top + window.scrollY - 20;
    tag.style.top = (above > window.scrollY ? above : r.top + window.scrollY + r.height) + "px";
    tag.style.left = (r.left + window.scrollX) + "px";
  }

  function onMove(e) {
    if (!picking || form) return;
    var el = e.target;
    if (!el || el.nodeType !== 1 || ours(el)) return;
    hovered = el;
    place(el);
  }

  // Describe something without arming anything first.
  //
  // Reporting was two steps: turn the mode on, then click. A held modifier is
  // the same promise the mode makes, that this click describes rather than
  // follows, without having to say so in advance. Command and shift together,
  // because either alone already means something to a browser.
  function onShortcutClick(e) {
    if (picking || !(e.metaKey && e.shiftKey)) return;
    if (ours(e.target)) return;
    e.preventDefault();
    e.stopPropagation();
    if (form) {
      closeForm();
      return;
    }
    arm();
    openForm(e.target);
  }

  function onClick(e) {
    if (!picking) return;
    if (ours(e.target)) return;
    e.preventDefault();
    e.stopPropagation();
    // Clicking away from an open form dismisses it, the way every other
    // popover on a Mac behaves.
    if (form) {
      closeForm();
      return;
    }
    openForm(hovered || e.target);
  }

  function button(label, accent) {
    var b = ui("button");
    b.type = "button";
    b.textContent = label;
    b.style.cssText =
      "height:24px;padding:0 10px;border-radius:4px;font:12px inherit;font-weight:500;cursor:pointer;" +
      (accent
        ? "background:#4c8dff;color:#0e1520;border:1px solid #4c8dff;"
        : "background:#252529;color:#e8e8ea;border:1px solid #323236;");
    return b;
  }

  function openForm(el) {
    hovered = el;
    place(el);
    form = ui("div");
    form.style.cssText =
      "position:absolute;z-index:2147483647;background:#1c1c1f;border:1px solid #4c8dff;" +
      "border-radius:6px;padding:10px;width:320px;box-shadow:0 8px 24px rgba(0,0,0,.5);" +
      "font:13px -apple-system,system-ui,sans-serif;color:#e8e8ea;";
    var r = el.getBoundingClientRect();
    form.style.top = (r.bottom + window.scrollY + 8) + "px";
    form.style.left = Math.max(8, Math.min(r.left + window.scrollX, window.scrollX + window.innerWidth - 340)) + "px";

    // A titlebar with a close control, because a box with no way out of it is
    // a trap however many keys happen to dismiss it.
    var head = ui("div");
    head.style.cssText = "display:flex;align-items:flex-start;gap:8px;margin-bottom:6px;";
    var what = ui("div");
    what.style.cssText = "flex:1;min-width:0;font:11px ui-monospace,monospace;color:#8a8a92;word-break:break-all;";
    what.textContent = nameFor(el) + " at " + window.innerWidth + "px";
    var close = ui("button");
    close.type = "button";
    close.setAttribute("aria-label", "Close");
    close.textContent = "×";
    close.style.cssText =
      "flex:0 0 auto;width:20px;height:20px;line-height:18px;padding:0;border-radius:4px;" +
      "background:transparent;border:1px solid #323236;color:#8a8a92;font:14px inherit;cursor:pointer;";
    head.appendChild(what);
    head.appendChild(close);

    var input = ui("textarea");
    input.setAttribute("placeholder", "What is wrong here?");
    input.style.cssText =
      "width:100%;box-sizing:border-box;height:64px;resize:none;background:#141416;" +
      "border:1px solid #323236;border-radius:4px;color:#e8e8ea;padding:6px;font:13px inherit;outline:none;";

    var foot = ui("div");
    foot.style.cssText = "display:flex;align-items:center;gap:8px;margin-top:8px;";
    var hint = ui("div");
    hint.style.cssText = "flex:1;min-width:0;font:11px -apple-system,system-ui,sans-serif;color:#5c5c63;";
    hint.textContent = "Enter sends";
    var cancel = button("Cancel", false);
    var send = button("Send", true);
    foot.appendChild(hint);
    foot.appendChild(cancel);
    foot.appendChild(send);

    form.appendChild(head);
    form.appendChild(input);
    form.appendChild(foot);
    document.body.appendChild(form);
    input.focus();

    function submit() {
      var note = input.value.trim();
      if (!note) { input.focus(); return; }
      var rect = el.getBoundingClientRect();
      post("/p/report", {
        note: note,
        selector: selectorFor(el),
        element: nameFor(el),
        innerWidth: window.innerWidth,
        url: location.href,
        title: document.title,
        rect: {
          x: Math.round(rect.left), y: Math.round(rect.top + window.scrollY),
          w: Math.round(rect.width), h: Math.round(rect.height),
        },
      });
      closeForm();
    }

    close.addEventListener("click", function (ev) { ev.preventDefault(); ev.stopPropagation(); closeForm(); });
    cancel.addEventListener("click", function (ev) { ev.preventDefault(); ev.stopPropagation(); closeForm(); });
    send.addEventListener("click", function (ev) { ev.preventDefault(); ev.stopPropagation(); submit(); });

    input.addEventListener("keydown", function (ev) {
      ev.stopPropagation();
      if (ev.key === "Escape") { ev.preventDefault(); closeForm(); return; }
      if (ev.key === "Enter" && !ev.shiftKey) {
        ev.preventDefault();
        submit();
      }
    });

    form.__bpSubmit = submit;
  }

  function closeForm() {
    if (form && form.parentNode) form.parentNode.removeChild(form);
    form = null;
  }

  // Escape closes whatever is in front of you: the form first, then the mode.
  // Keying this off the focused element meant Escape did nothing whenever the
  // cursor had left the box, which is a box you cannot get out of.
  function onKey(e) {
    if (!picking || e.key !== "Escape") return;
    e.preventDefault();
    e.stopPropagation();
    if (form) closeForm();
    else window.__bpPick(false);
  }

  // The highlight and the listeners, without changing the mode.
  function arm() {
    if (box) return;
    box = ui("div");
    box.style.cssText =
      "position:absolute;z-index:2147483646;pointer-events:none;background:rgba(76,141,255,.16);" +
      "outline:1px solid #4c8dff;border-radius:2px;top:0;left:0;width:0;height:0;";
    tag = ui("div");
    tag.style.cssText =
      "position:absolute;z-index:2147483647;pointer-events:none;background:#4c8dff;color:#0e1520;" +
      "font:10px ui-monospace,monospace;padding:2px 5px;border-radius:3px;white-space:nowrap;top:0;left:0;";
    document.body.appendChild(box);
    document.body.appendChild(tag);
  }

  document.addEventListener("click", onShortcutClick, true);

  window.__bpPick = function (on) {
    if (on === picking) return picking;
    picking = !!on;
    if (picking) {
      box = ui("div");
      box.style.cssText =
        "position:absolute;z-index:2147483646;pointer-events:none;background:rgba(76,141,255,.16);" +
        "outline:1px solid #4c8dff;border-radius:2px;top:0;left:0;width:0;height:0;";
      tag = ui("div");
      tag.style.cssText =
        "position:absolute;z-index:2147483647;pointer-events:none;background:#4c8dff;color:#0e1520;" +
        "font:10px ui-monospace,monospace;padding:2px 5px;border-radius:3px;white-space:nowrap;top:0;left:0;";
      document.body.appendChild(box);
      document.body.appendChild(tag);
      document.addEventListener("mousemove", onMove, true);
      document.addEventListener("click", onClick, true);
      document.addEventListener("keydown", onKey, true);
    } else {
      closeForm();
      document.removeEventListener("mousemove", onMove, true);
      document.removeEventListener("click", onClick, true);
      document.removeEventListener("keydown", onKey, true);
      [box, tag].forEach(function (el) { if (el && el.parentNode) el.parentNode.removeChild(el); });
      box = null;
      tag = null;
      hovered = null;
    }
    return picking;
  };

  function ready() {
    post("/p/ready", { url: location.href, title: document.title, width: window.innerWidth });
  }
  if (document.readyState === "loading") {
    document.addEventListener("DOMContentLoaded", ready);
  } else {
    ready();
  }
})();"##;

/// The script for one panel: the same for all of them but for the panel's id,
/// the port to post to, and the nonce that proves where a message came from.
pub open spec fn panel_script(panel_id: Seq<char>, port: u16, nonce: Seq<char>) -> Seq<char> {
    SCRIPT_START@ + json_string(panel_id) + SCRIPT_AFTER_ID@ + decimal(port as nat)
        + SCRIPT_AFTER_PORT@ + json_string(nonce) + SCRIPT_AFTER_NONCE@
}

pub fn injected_script(panel_id: &str, endpoint: &Endpoint) -> (r: String)
    ensures
        r@ == panel_script(panel_id@, endpoint.port, endpoint.nonce@),
{
    let mut out = SCRIPT_START.to_owned();
    out.append(quote(panel_id).as_str());
    out.append(SCRIPT_AFTER_ID);
    out.append(decimal_string(endpoint.port as u64).as_str());
    out.append(SCRIPT_AFTER_PORT);
    out.append(quote(endpoint.nonce.as_str()).as_str());
    out.append(SCRIPT_AFTER_NONCE);
    out
}

/// What collects a panel's queued messages.
pub const DRAIN: &'static str = "return window.__bpDrain ? window.__bpDrain() : [];";

/// The drain, wrapped as every script run in a panel is.
pub fn drain_script() -> (r: String)
    ensures
        r@ == WRAP_START@ + DRAIN@ + WRAP_END@,
{
    wrap_script(DRAIN)
}

/// The script carries the panel's id, the address to post to and the nonce,
/// each written out where the script reads it.
pub proof fn the_script_carries_what_it_was_given(
    panel_id: Seq<char>,
    port: u16,
    nonce: Seq<char>,
)
    ensures
        crate::text::has(panel_script(panel_id, port, nonce), json_string(panel_id)),
        crate::text::has(panel_script(panel_id, port, nonce), decimal(port as nat)),
        crate::text::has(panel_script(panel_id, port, nonce), json_string(nonce)),
{
    let s = panel_script(panel_id, port, nonce);
    let a = SCRIPT_START@.len() as int;
    let b = a + json_string(panel_id).len() + SCRIPT_AFTER_ID@.len();
    let c = b + decimal(port as nat).len() + SCRIPT_AFTER_PORT@.len();
    assert(s.subrange(a, a + json_string(panel_id).len()) =~= json_string(panel_id));
    assert(s.subrange(b, b + decimal(port as nat).len()) =~= decimal(port as nat));
    assert(s.subrange(c, c + json_string(nonce).len()) =~= json_string(nonce));
    assert(crate::text::matches_at(s, json_string(panel_id), a));
    assert(crate::text::matches_at(s, decimal(port as nat), b));
    assert(crate::text::matches_at(s, json_string(nonce), c));
}

} // verus!
